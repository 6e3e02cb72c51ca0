//! The stack-based interpreter.
//!
//! The VM decodes and runs a chunk's instructions and keeps its operand stack
//! honest; it does no arithmetic itself. A value on the stack is the term that
//! denotes it (a pooled constant, or an operation applied to values), so a
//! run yields exactly which computation the chunk describes, in operand order,
//! and the caller evaluates it in the chunk's numeric type.
use vstd::prelude::*;
use crate::chunk::{Chunk, OpCode};

verus! {

/// The binary arithmetic operations.
#[derive(Clone, Copy, Debug, PartialEq, Eq, Structural)]
pub enum BinaryOp {
    Add,
    Subtract,
    Multiply,
    Divide,
}

/// A value, as the term that computes it from the constant pool.
#[derive(Debug, PartialEq)]
pub enum Term {
    /// The pooled constant at this index.
    Constant(u8),
    /// The arithmetic negation of a value.
    Negate(Box<Term>),
    /// `left op right`.
    Binary(BinaryOp, Box<Term>, Box<Term>),
}

/// How one run ended.
#[derive(Clone, Copy, Debug, PartialEq, Eq, Structural)]
pub enum InterpretResult {
    InterpretOk,
    /// Reserved for a compiler stage; the VM never reports it.
    InterpretCompileError,
    InterpretRuntimeError,
}

/// How a run stopped: its result, the value returned on `Return`, and the
/// instruction pointer and stack it left.
pub struct Halt {
    pub result: InterpretResult,
    pub value: Option<Term>,
    pub ip: nat,
    pub stack: Seq<Term>,
}

/// The state after one instruction: still running at an instruction pointer
/// with a stack, or halted.
pub enum Outcome {
    Running(nat, Seq<Term>),
    Halted(Halt),
}

/// The binary operation that an instruction performs, if it is one.
pub open spec fn binary_of(op: OpCode) -> Option<BinaryOp> {
    match op {
        OpCode::Add => Some(BinaryOp::Add),
        OpCode::Subtract => Some(BinaryOp::Subtract),
        OpCode::Multiply => Some(BinaryOp::Multiply),
        OpCode::Divide => Some(BinaryOp::Divide),
        _ => None,
    }
}

/// A halt on a runtime error, with the instruction pointer past the bytes
/// read and the stack as it was.
pub open spec fn runtime_error(ip: nat, stack: Seq<Term>) -> Outcome {
    Outcome::Halted(Halt { result: InterpretResult::InterpretRuntimeError, value: None, ip, stack })
}

/// Executes the instruction at `ip` of `code`, with `n_constants` pooled
/// constants, on `stack` (its last element is the top).
pub open spec fn step(code: Seq<u8>, n_constants: nat, ip: nat, stack: Seq<Term>) -> Outcome {
    if ip >= code.len() {
        runtime_error(ip, stack)
    } else {
        match OpCode::spec_decode(code[ip as int]) {
            None => runtime_error(ip + 1, stack),
            Some(OpCode::Constant) => {
                if ip + 1 >= code.len() {
                    runtime_error(ip + 1, stack)
                } else if code[ip + 1 as int] >= n_constants {
                    runtime_error(ip + 2, stack)
                } else {
                    Outcome::Running(ip + 2, stack.push(Term::Constant(code[ip + 1 as int])))
                }
            },
            Some(OpCode::Return) => {
                if stack.len() == 0 {
                    runtime_error(ip + 1, stack)
                } else {
                    Outcome::Halted(
                        Halt {
                            result: InterpretResult::InterpretOk,
                            value: Some(stack.last()),
                            ip: ip + 1,
                            stack: stack.drop_last(),
                        },
                    )
                }
            },
            Some(OpCode::Negate) => {
                if stack.len() == 0 {
                    runtime_error(ip + 1, stack)
                } else {
                    Outcome::Running(
                        ip + 1,
                        stack.drop_last().push(Term::Negate(Box::new(stack.last()))),
                    )
                }
            },
            Some(op) => {
                if stack.len() < 2 {
                    runtime_error(ip + 1, stack)
                } else {
                    let n = stack.len() as int;
                    Outcome::Running(
                        ip + 1,
                        stack.subrange(0, n - 2).push(
                            Term::Binary(
                                binary_of(op)->0,
                                Box::new(stack[n - 2]),
                                Box::new(stack[n - 1]),
                            ),
                        ),
                    )
                }
            },
        }
    }
}

/// Runs `code` from `ip` on `stack` until it halts. Every instruction moves
/// forward, so a run ends, at the latest when the code is exhausted (a
/// runtime error).
pub open spec fn run(code: Seq<u8>, n_constants: nat, ip: nat, stack: Seq<Term>) -> Halt
    decreases code.len() - ip,
{
    match step(code, n_constants, ip, stack) {
        Outcome::Halted(h) => h,
        Outcome::Running(next, s) => {
            if ip < next <= code.len() {
                run(code, n_constants, next, s)
            } else {
                Halt { result: InterpretResult::InterpretRuntimeError, value: None, ip, stack }
            }
        },
    }
}

/// An instruction other than `Return`, as a program is written before it is
/// encoded: used to speak of whole instruction sequences.
pub enum Instruction {
    Constant(u8),
    Negate,
    Binary(BinaryOp),
}

pub open spec fn binary_byte(op: BinaryOp) -> u8 {
    match op {
        BinaryOp::Add => OpCode::Add.spec_byte(),
        BinaryOp::Subtract => OpCode::Subtract.spec_byte(),
        BinaryOp::Multiply => OpCode::Multiply.spec_byte(),
        BinaryOp::Divide => OpCode::Divide.spec_byte(),
    }
}

/// The bytes of one instruction.
pub open spec fn encode_one(i: Instruction) -> Seq<u8> {
    match i {
        Instruction::Constant(index) => seq![OpCode::Constant.spec_byte(), index],
        Instruction::Negate => seq![OpCode::Negate.spec_byte()],
        Instruction::Binary(op) => seq![binary_byte(op)],
    }
}

/// The bytes of an instruction sequence.
pub open spec fn encode(is: Seq<Instruction>) -> Seq<u8>
    decreases is.len(),
{
    if is.len() == 0 {
        Seq::empty()
    } else {
        encode_one(is[0]) + encode(is.drop_first())
    }
}

/// The stack after one instruction, as the VM computes it.
pub open spec fn apply(i: Instruction, stack: Seq<Term>) -> Seq<Term> {
    let n = stack.len() as int;
    match i {
        Instruction::Constant(index) => stack.push(Term::Constant(index)),
        Instruction::Negate => stack.drop_last().push(Term::Negate(Box::new(stack.last()))),
        Instruction::Binary(op) => stack.subrange(0, n - 2).push(
            Term::Binary(op, Box::new(stack[n - 2]), Box::new(stack[n - 1])),
        ),
    }
}

/// The stack after a sequence of instructions.
pub open spec fn apply_all(is: Seq<Instruction>, stack: Seq<Term>) -> Seq<Term>
    decreases is.len(),
{
    if is.len() == 0 {
        stack
    } else {
        apply_all(is.drop_first(), apply(is[0], stack))
    }
}

/// The instruction finds its operands on a stack of `depth` values, and a
/// constant it pushes lies in the pool.
pub open spec fn can_apply(i: Instruction, n_constants: nat, depth: nat) -> bool {
    match i {
        Instruction::Constant(index) => index < n_constants,
        Instruction::Negate => depth >= 1,
        Instruction::Binary(_) => depth >= 2,
    }
}

/// The stack depth after one instruction.
pub open spec fn depth_after(i: Instruction, depth: nat) -> nat {
    match i {
        Instruction::Constant(_) => depth + 1,
        Instruction::Negate => depth,
        Instruction::Binary(_) => (depth - 1) as nat,
    }
}

/// Every instruction of the sequence, run from a stack of `depth` values,
/// finds its operands and indexes the pool.
pub open spec fn well_formed(is: Seq<Instruction>, n_constants: nat, depth: nat) -> bool
    decreases is.len(),
{
    if is.len() == 0 {
        true
    } else {
        &&& can_apply(is[0], n_constants, depth)
        &&& well_formed(is.drop_first(), n_constants, depth_after(is[0], depth))
    }
}

/// The stack depth after a sequence of instructions.
pub open spec fn final_depth(is: Seq<Instruction>, depth: nat) -> nat
    decreases is.len(),
{
    if is.len() == 0 {
        depth
    } else {
        final_depth(is.drop_first(), depth_after(is[0], depth))
    }
}

proof fn lemma_apply_len(i: Instruction, stack: Seq<Term>, n_constants: nat)
    requires
        can_apply(i, n_constants, stack.len()),
    ensures
        apply(i, stack).len() == depth_after(i, stack.len()),
        apply(i, stack).len() >= 1,
{
}

/// An instruction that finds its operands in the top part `t` of a stack
/// leaves the part below untouched.
proof fn lemma_apply_append(i: Instruction, below: Seq<Term>, t: Seq<Term>, n_constants: nat)
    requires
        can_apply(i, n_constants, t.len()),
    ensures
        apply(i, below + t) == below + apply(i, t),
{
    let s = below + t;
    let n = s.len() as int;
    match i {
        Instruction::Constant(_) => {
            assert(apply(i, s) =~= below + apply(i, t));
        },
        Instruction::Negate => {
            assert(s.drop_last() =~= below + t.drop_last());
            assert(apply(i, s) =~= below + apply(i, t));
        },
        Instruction::Binary(_) => {
            assert(s.subrange(0, n - 2) =~= below + t.subrange(0, t.len() - 2));
            assert(s[n - 2] == t[t.len() - 2]);
            assert(s[n - 1] == t[t.len() - 1]);
            assert(apply(i, s) =~= below + apply(i, t));
        },
    }
}

/// Running a well-formed instruction sequence that stands in the code at
/// `ip`, on a stack whose top part is `t`, leaves the VM just past it with
/// the part below untouched and `t` as `apply_all` gives it.
proof fn lemma_run_sequence(
    code: Seq<u8>,
    n_constants: nat,
    ip: nat,
    is: Seq<Instruction>,
    below: Seq<Term>,
    t: Seq<Term>,
)
    requires
        ip + encode(is).len() <= code.len(),
        code.subrange(ip as int, (ip + encode(is).len()) as int) == encode(is),
        well_formed(is, n_constants, t.len()),
    ensures
        run(code, n_constants, ip, below + t) == run(
            code,
            n_constants,
            ip + encode(is).len(),
            below + apply_all(is, t),
        ),
    decreases is.len(),
{
    if is.len() > 0 {
        let i = is[0];
        let e = encode_one(i);
        let rest = is.drop_first();
        assert(encode(is) == e + encode(rest));
        assert(code[ip as int] == e[0]) by {
            assert(code.subrange(ip as int, (ip + encode(is).len()) as int)[0] == encode(is)[0]);
        }
        if e.len() == 2 {
            assert(code[ip + 1 as int] == e[1]) by {
                assert(code.subrange(ip as int, (ip + encode(is).len()) as int)[1] == encode(is)[1]);
            }
        }
        let next = ip + e.len();
        lemma_apply_append(i, below, t, n_constants);
        assert(step(code, n_constants, ip, below + t) == Outcome::Running(next, below + apply(i, t)));
        assert(code.subrange(next as int, (next + encode(rest).len()) as int) =~= encode(rest)) by {
            assert forall|k: int| 0 <= k < encode(rest).len() implies code.subrange(
                next as int,
                (next + encode(rest).len()) as int,
            )[k] == encode(rest)[k] by {
                assert(code.subrange(ip as int, (ip + encode(is).len()) as int)[e.len() as int + k] == encode(is)[e.len() as int + k]);
            }
        }
        lemma_apply_len(i, t, n_constants);
        lemma_run_sequence(code, n_constants, next, rest, below, apply(i, t));
    }
}

proof fn lemma_apply_all_len(is: Seq<Instruction>, n_constants: nat, stack: Seq<Term>)
    requires
        well_formed(is, n_constants, stack.len()),
        is.len() > 0 || stack.len() > 0,
    ensures
        apply_all(is, stack).len() >= 1,
        apply_all(is, stack).len() == final_depth(is, stack.len()),
    decreases is.len(),
{
    if is.len() > 0 {
        lemma_apply_len(is[0], stack, n_constants);
        lemma_apply_all_len(is.drop_first(), n_constants, apply(is[0], stack));
    }
}

/// A non-empty instruction sequence in which every instruction finds its
/// operands and indexes the pool, followed by one `Return`, runs on any
/// stack `below` to `Ok`: `Return` pops and returns the top of the values
/// the sequence built, and leaves `below` with the rest on top of it. Just
/// before `Return` the sequence has added exactly as many values as it
/// leaves: for a sequence that leaves one, `Return` finds that one value on
/// `below` and the run ends with the stack as it was before.
pub proof fn lemma_well_formed_program_returns(is: Seq<Instruction>, n_constants: nat, below: Seq<Term>)
    requires
        is.len() > 0,
        well_formed(is, n_constants, 0),
    ensures
        apply_all(is, Seq::empty()).len() == final_depth(is, 0) >= 1,
        run(encode(is).push(OpCode::Return.spec_byte()), n_constants, 0, below) == (Halt {
            result: InterpretResult::InterpretOk,
            value: Some(apply_all(is, Seq::empty()).last()),
            ip: encode(is).len() + 1,
            stack: below + apply_all(is, Seq::empty()).drop_last(),
        }),
        final_depth(is, 0) == 1 ==> run(
            encode(is).push(OpCode::Return.spec_byte()),
            n_constants,
            0,
            below,
        ).stack == below,
{
    let code = encode(is).push(OpCode::Return.spec_byte());
    let built = apply_all(is, Seq::empty());
    assert(code.subrange(0, encode(is).len() as int) =~= encode(is));
    assert(below + Seq::<Term>::empty() =~= below);
    lemma_run_sequence(code, n_constants, 0, is, below, Seq::empty());
    lemma_apply_all_len(is, n_constants, Seq::empty());
    assert((below + built).drop_last() =~= below + built.drop_last());
    assert((below + built).last() == built.last());
    if final_depth(is, 0) == 1 {
        assert(below + built.drop_last() =~= below);
    }
}

/// A `Constant` whose operand indexes past the pool halts the run with a
/// runtime error, past the operand and with the stack as it was.
pub proof fn lemma_constant_out_of_pool(code: Seq<u8>, n_constants: nat, ip: nat, stack: Seq<Term>)
    requires
        ip + 1 < code.len(),
        code[ip as int] == OpCode::Constant.spec_byte(),
        code[ip + 1 as int] >= n_constants,
    ensures
        step(code, n_constants, ip, stack) == runtime_error(ip + 2, stack),
        run(code, n_constants, ip, stack) == (Halt {
            result: InterpretResult::InterpretRuntimeError,
            value: None,
            ip: ip + 2,
            stack,
        }),
{
}

/// A binary instruction takes the value pushed first as its left operand:
/// with `a` pushed, then `b`, `Subtract` computes `a - b`.
pub proof fn lemma_binary_operand_order(
    code: Seq<u8>,
    n_constants: nat,
    ip: nat,
    stack: Seq<Term>,
    op: BinaryOp,
    a: Term,
    b: Term,
)
    requires
        ip < code.len(),
        code[ip as int] == binary_byte(op),
    ensures
        step(code, n_constants, ip, stack.push(a).push(b)) == Outcome::Running(
            ip + 1,
            stack.push(Term::Binary(op, Box::new(a), Box::new(b))),
        ),
{
    let s = stack.push(a).push(b);
    assert(s.subrange(0, s.len() - 2) =~= stack);
}

/// An instruction that pops more values than the stack holds halts the run
/// with a runtime error and leaves the stack as it was.
pub proof fn lemma_underflow_is_runtime_error(code: Seq<u8>, n_constants: nat, ip: nat, stack: Seq<Term>)
    requires
        ip < code.len(),
        ({
            let b = code[ip as int];
            ||| (b == OpCode::Return.spec_byte() || b == OpCode::Negate.spec_byte()) && stack.len() == 0
            ||| (b == OpCode::Add.spec_byte() || b == OpCode::Subtract.spec_byte() || b
                == OpCode::Multiply.spec_byte() || b == OpCode::Divide.spec_byte()) && stack.len() < 2
        }),
    ensures
        step(code, n_constants, ip, stack) == runtime_error(ip + 1, stack),
        run(code, n_constants, ip, stack) == (Halt {
            result: InterpretResult::InterpretRuntimeError,
            value: None,
            ip: ip + 1,
            stack,
        }),
{
}

/// The virtual machine: the chunk it runs, the instruction pointer, the
/// operand stack, the value of the last `Return`, and whether a driver
/// should trace each step.
pub struct VM<V> {
    chunk: Chunk<V>,
    ip: usize,
    stack: Vec<Term>,
    returned: Option<Term>,
    trace: bool,
}

impl<V> VM<V> {
    pub closed spec fn code(&self) -> Seq<u8> {
        self.chunk.code@
    }

    pub closed spec fn n_constants(&self) -> nat {
        self.chunk.constants@.len()
    }

    pub closed spec fn ip_view(&self) -> nat {
        self.ip as nat
    }

    pub closed spec fn stack_view(&self) -> Seq<Term> {
        self.stack@
    }

    pub closed spec fn returned_view(&self) -> Option<Term> {
        self.returned
    }

    pub closed spec fn trace_view(&self) -> bool {
        self.trace
    }

    /// The VM stopped with result `r` in the state that `h` describes.
    pub open spec fn ended_in(&self, r: InterpretResult, h: Halt) -> bool {
        &&& r == h.result
        &&& self.returned_view() == h.value
        &&& self.ip_view() == h.ip
        &&& self.stack_view() == h.stack
    }

    pub closed spec fn wf(&self) -> bool {
        &&& self.chunk.wf()
        &&& self.ip <= self.chunk.code@.len()
    }

    /// A VM with an empty chunk; `trace` asks a driver to show each step.
    pub fn new(trace: bool) -> (r: Self)
        ensures
            r.wf(),
            r.code() == Seq::<u8>::empty(),
            r.ip_view() == 0,
            r.stack_view() == Seq::<Term>::empty(),
            r.returned_view() is None,
            r.trace_view() == trace,
    {
        VM { chunk: Chunk::new(), ip: 0, stack: Vec::new(), returned: None, trace }
    }

    pub fn trace(&self) -> (r: bool)
        ensures
            r == self.trace_view(),
    {
        self.trace
    }

    pub fn ip(&self) -> (r: usize)
        ensures
            r == self.ip_view(),
    {
        self.ip
    }

    pub fn stack(&self) -> (r: &Vec<Term>)
        ensures
            r@ == self.stack_view(),
    {
        &self.stack
    }

    pub fn chunk(&self) -> (r: &Chunk<V>)
        ensures
            r.code@ == self.code(),
            r.constants@.len() == self.n_constants(),
            self.wf() ==> r.wf(),
    {
        &self.chunk
    }

    /// The value that the last run returned, if it returned one.
    pub fn returned(&self) -> (r: &Option<Term>)
        ensures
            *r == self.returned_view(),
    {
        &self.returned
    }

    /// Installs a chunk to run from its first byte on an empty stack.
    pub fn load(&mut self, chunk: Chunk<V>)
        requires
            chunk.wf(),
        ensures
            final(self).wf(),
            final(self).code() == chunk.code@,
            final(self).n_constants() == chunk.constants@.len(),
            final(self).ip_view() == 0,
            final(self).stack_view() == Seq::<Term>::empty(),
            final(self).returned_view() is None,
            final(self).trace_view() == old(self).trace_view(),
    {
        self.chunk = chunk;
        self.ip = 0;
        self.stack = Vec::new();
        self.returned = None;
    }

    fn push(&mut self, value: Term)
        ensures
            final(self).stack@ == old(self).stack@.push(value),
            final(self).chunk == old(self).chunk,
            final(self).ip == old(self).ip,
            final(self).returned == old(self).returned,
            final(self).trace == old(self).trace,
    {
        self.stack.push(value);
    }

    /// Pops the top of the stack; on an empty stack, `None`.
    fn pop(&mut self) -> (r: Option<Term>)
        ensures
            old(self).stack@.len() == 0 ==> r is None && final(self).stack@ == old(self).stack@,
            old(self).stack@.len() > 0 ==> r == Some(old(self).stack@.last())
                && final(self).stack@ == old(self).stack@.drop_last(),
            final(self).chunk == old(self).chunk,
            final(self).ip == old(self).ip,
            final(self).returned == old(self).returned,
            final(self).trace == old(self).trace,
    {
        self.stack.pop()
    }

    /// Fetches the byte at the instruction pointer and moves past it; past
    /// the end of the code, `None`.
    fn read_byte(&mut self) -> (r: Option<u8>)
        requires
            old(self).wf(),
        ensures
            final(self).wf(),
            old(self).ip < old(self).chunk.code@.len() ==> r == Some(
                old(self).chunk.code@[old(self).ip as int],
            ) && final(self).ip == old(self).ip + 1,
            old(self).ip >= old(self).chunk.code@.len() ==> r is None && final(self).ip
                == old(self).ip,
            final(self).chunk == old(self).chunk,
            final(self).stack == old(self).stack,
            final(self).returned == old(self).returned,
            final(self).trace == old(self).trace,
    {
        if self.ip < self.chunk.code.len() {
            let b = self.chunk.code[self.ip];
            self.ip = self.ip + 1;
            Some(b)
        } else {
            None
        }
    }

    /// Fetches a `Constant` operand: the constant it indexes, or `None` when
    /// the operand is missing or indexes past the pool.
    fn read_constant(&mut self) -> (r: Option<Term>)
        requires
            old(self).wf(),
        ensures
            final(self).wf(),
            ({
                let code = old(self).chunk.code@;
                let ip = old(self).ip as int;
                if ip >= code.len() {
                    r is None && final(self).ip == ip
                } else if code[ip] >= old(self).chunk.constants@.len() {
                    r is None && final(self).ip == ip + 1
                } else {
                    r == Some(Term::Constant(code[ip])) && final(self).ip == ip + 1
                }
            }),
            final(self).chunk == old(self).chunk,
            final(self).stack == old(self).stack,
            final(self).returned == old(self).returned,
            final(self).trace == old(self).trace,
    {
        match self.read_byte() {
            Some(index) => {
                if (index as usize) < self.chunk.constants.len() {
                    Some(Term::Constant(index))
                } else {
                    None
                }
            },
            None => None,
        }
    }

    /// Pops the right operand, then the left one, and pushes `left op right`;
    /// `false`, for a runtime error, when the stack holds fewer than two values.
    fn binary_op(&mut self, op: BinaryOp) -> (r: bool)
        ensures
            ({
                let s = old(self).stack@;
                let n = s.len() as int;
                if n < 2 {
                    !r && final(self).stack@ == s
                } else {
                    r && final(self).stack@ == s.subrange(0, n - 2).push(
                        Term::Binary(op, Box::new(s[n - 2]), Box::new(s[n - 1])),
                    )
                }
            }),
            final(self).chunk == old(self).chunk,
            final(self).ip == old(self).ip,
            final(self).returned == old(self).returned,
            final(self).trace == old(self).trace,
    {
        if self.stack.len() < 2 {
            return false;
        }
        let ghost s = self.stack@;
        let b = self.pop().unwrap();
        let a = self.pop().unwrap();
        assert(self.stack@ =~= s.subrange(0, s.len() - 2));
        self.push(Term::Binary(op, Box::new(a), Box::new(b)));
        true
    }

    /// Executes one instruction. `None` while the run goes on; else how it
    /// ended, with the returned value kept on `Return`.
    pub fn step(&mut self) -> (r: Option<InterpretResult>)
        requires
            old(self).wf(),
        ensures
            final(self).wf(),
            final(self).code() == old(self).code(),
            final(self).n_constants() == old(self).n_constants(),
            final(self).trace_view() == old(self).trace_view(),
            match step(old(self).code(), old(self).n_constants(), old(self).ip_view(), old(self).stack_view()) {
                Outcome::Running(ip, s) => {
                    &&& r is None
                    &&& final(self).ip_view() == ip
                    &&& final(self).stack_view() == s
                    &&& final(self).returned_view() is None
                },
                Outcome::Halted(h) => r == Some(h.result) && final(self).ended_in(h.result, h),
            },
    {
        self.returned = None;
        let instruction = match self.read_byte() {
            Some(b) => b,
            None => return Some(InterpretResult::InterpretRuntimeError),
        };
        match OpCode::decode(instruction) {
            Some(OpCode::Constant) => match self.read_constant() {
                Some(constant) => {
                    self.push(constant);
                    None
                },
                None => Some(InterpretResult::InterpretRuntimeError),
            },
            Some(OpCode::Return) => match self.pop() {
                Some(value) => {
                    self.returned = Some(value);
                    Some(InterpretResult::InterpretOk)
                },
                None => Some(InterpretResult::InterpretRuntimeError),
            },
            Some(OpCode::Negate) => match self.pop() {
                Some(value) => {
                    self.push(Term::Negate(Box::new(value)));
                    None
                },
                None => Some(InterpretResult::InterpretRuntimeError),
            },
            Some(OpCode::Add) => self.binary_step(BinaryOp::Add),
            Some(OpCode::Subtract) => self.binary_step(BinaryOp::Subtract),
            Some(OpCode::Multiply) => self.binary_step(BinaryOp::Multiply),
            Some(OpCode::Divide) => self.binary_step(BinaryOp::Divide),
            None => Some(InterpretResult::InterpretRuntimeError),
        }
    }

    fn binary_step(&mut self, op: BinaryOp) -> (r: Option<InterpretResult>)
        ensures
            ({
                let s = old(self).stack@;
                let n = s.len() as int;
                if n < 2 {
                    r == Some(InterpretResult::InterpretRuntimeError) && final(self).stack@ == s
                } else {
                    r is None && final(self).stack@ == s.subrange(0, n - 2).push(
                        Term::Binary(op, Box::new(s[n - 2]), Box::new(s[n - 1])),
                    )
                }
            }),
            final(self).chunk == old(self).chunk,
            final(self).ip == old(self).ip,
            final(self).returned == old(self).returned,
            final(self).trace == old(self).trace,
    {
        if self.binary_op(op) {
            None
        } else {
            Some(InterpretResult::InterpretRuntimeError)
        }
    }

    /// Executes instructions until the run halts.
    pub fn run(&mut self) -> (r: InterpretResult)
        requires
            old(self).wf(),
        ensures
            final(self).wf(),
            final(self).code() == old(self).code(),
            final(self).n_constants() == old(self).n_constants(),
            final(self).trace_view() == old(self).trace_view(),
            final(self).ended_in(
                r,
                run(
                old(self).code(),
                old(self).n_constants(),
                old(self).ip_view(),
                old(self).stack_view(),
            )),
    {
        let ghost goal = run(self.code(), self.n_constants(), self.ip_view(), self.stack_view());
        loop
            invariant
                self.wf(),
                self.code() == old(self).code(),
                self.n_constants() == old(self).n_constants(),
                self.trace_view() == old(self).trace_view(),
                goal == run(old(self).code(), old(self).n_constants(), old(self).ip_view(), old(self).stack_view()),
                run(self.code(), self.n_constants(), self.ip_view(), self.stack_view()) == goal,
            decreases self.code().len() - self.ip_view(),
        {
            if let Some(r) = self.step() {
                return r;
            }
        }
    }

    /// Installs `chunk` and runs it from its first byte on an empty stack.
    pub fn interpret(&mut self, chunk: Chunk<V>) -> (r: InterpretResult)
        requires
            chunk.wf(),
        ensures
            final(self).wf(),
            final(self).code() == chunk.code@,
            final(self).n_constants() == chunk.constants@.len(),
            final(self).trace_view() == old(self).trace_view(),
            final(self).ended_in(
                r,
                run(
                chunk.code@,
                chunk.constants@.len(),
                0,
                Seq::empty(),
            )),
    {
        self.load(chunk);
        self.run()
    }
}

} // verus!
