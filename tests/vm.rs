use rlox::chunk::{Chunk, OpCode};
use rlox::debug::{disassemble, Decoded};
use rlox::vm::{BinaryOp, InterpretResult, Term, VM};

fn eval(t: &Term, constants: &[f64]) -> f64 {
    match t {
        Term::Constant(i) => constants[*i as usize],
        Term::Negate(v) => -eval(v, constants),
        Term::Binary(op, a, b) => {
            let (a, b) = (eval(a, constants), eval(b, constants));
            match op {
                BinaryOp::Add => a + b,
                BinaryOp::Subtract => a - b,
                BinaryOp::Multiply => a * b,
                BinaryOp::Divide => a / b,
            }
        }
    }
}

fn chunk(code: &[u8], constants: &[f64]) -> Chunk<f64> {
    let mut c = Chunk::new();
    for v in constants {
        c.add_constant(*v).unwrap();
    }
    for b in code {
        c.write(*b, 1);
    }
    c
}

fn run(code: &[u8], constants: &[f64]) -> (InterpretResult, Option<f64>) {
    let mut vm = VM::new(false);
    let r = vm.interpret(chunk(code, constants));
    (r, vm.returned().as_ref().map(|t| eval(t, constants)))
}

const C: u8 = 0;
const RET: u8 = 1;
const NEG: u8 = 2;
const ADD: u8 = 3;
const SUB: u8 = 4;
const MUL: u8 = 5;
const DIV: u8 = 6;

#[test]
fn add_chunk_disassembles_and_runs_to_the_sum() {
    let code = [C, 0, C, 1, ADD, RET];
    let c = chunk(&code, &[1.2, 3.4]);
    let listing = disassemble(&c);
    let decoded: Vec<Decoded> = listing.iter().map(|d| d.decoded).collect();
    assert_eq!(
        decoded,
        vec![
            Decoded::Constant(0),
            Decoded::Constant(1),
            Decoded::Simple(OpCode::Add),
            Decoded::Simple(OpCode::Return),
        ]
    );
    let mut vm = VM::new(false);
    assert_eq!(vm.interpret(c), InterpretResult::InterpretOk);
    let term = vm.returned().as_ref().unwrap();
    assert_eq!(
        *term,
        Term::Binary(BinaryOp::Add, Box::new(Term::Constant(0)), Box::new(Term::Constant(1)))
    );
    assert_eq!(eval(term, &[1.2, 3.4]), 4.6);
}

#[test]
fn subtract_takes_first_pushed_as_left_operand() {
    assert_eq!(run(&[C, 0, C, 1, SUB, RET], &[5.0, 3.0]), (InterpretResult::InterpretOk, Some(2.0)));
    assert_eq!(run(&[C, 0, C, 1, DIV, RET], &[6.0, 3.0]), (InterpretResult::InterpretOk, Some(2.0)));
}

#[test]
fn constant_index_outside_pool_is_a_runtime_error() {
    assert_eq!(run(&[C, 2, RET], &[1.0, 2.0]), (InterpretResult::InterpretRuntimeError, None));
    assert_eq!(run(&[C], &[1.0]), (InterpretResult::InterpretRuntimeError, None));
}

#[test]
fn popping_an_empty_stack_is_a_runtime_error() {
    assert_eq!(run(&[RET], &[]), (InterpretResult::InterpretRuntimeError, None));
    assert_eq!(run(&[NEG, RET], &[]), (InterpretResult::InterpretRuntimeError, None));
    assert_eq!(run(&[C, 0, ADD, RET], &[1.0]), (InterpretResult::InterpretRuntimeError, None));
    assert_eq!(run(&[MUL], &[]), (InterpretResult::InterpretRuntimeError, None));
}

#[test]
fn unknown_opcode_and_missing_return_are_runtime_errors() {
    assert_eq!(run(&[C, 0, 7, RET], &[1.0]), (InterpretResult::InterpretRuntimeError, None));
    assert_eq!(run(&[C, 0], &[1.0]), (InterpretResult::InterpretRuntimeError, None));
    assert_eq!(run(&[], &[]), (InterpretResult::InterpretRuntimeError, None));
}

#[test]
fn well_formed_program_returns_its_single_value() {
    // -(1 + 2 * 3)
    let code = [C, 0, C, 1, C, 2, MUL, ADD, NEG, RET];
    let mut vm = VM::new(false);
    vm.load(chunk(&code, &[1.0, 2.0, 3.0]));
    while vm.ip() < 9 {
        assert_eq!(vm.step(), None);
    }
    assert_eq!(vm.stack().len(), 1);
    assert_eq!(vm.step(), Some(InterpretResult::InterpretOk));
    assert_eq!(eval(vm.returned().as_ref().unwrap(), &[1.0, 2.0, 3.0]), -7.0);
}

#[test]
fn return_yields_the_top_of_a_deeper_stack() {
    assert_eq!(run(&[C, 0, C, 1, RET], &[1.0, 2.0]), (InterpretResult::InterpretOk, Some(2.0)));
}

#[test]
fn division_by_zero_follows_floating_point() {
    let (r, v) = run(&[C, 0, C, 1, DIV, RET], &[1.0, 0.0]);
    assert_eq!(r, InterpretResult::InterpretOk);
    assert_eq!(v, Some(f64::INFINITY));
    let (_, nan) = run(&[C, 1, C, 1, DIV, RET], &[1.0, 0.0]);
    assert!(nan.unwrap().is_nan());
}

#[test]
fn a_vm_runs_one_chunk_after_another() {
    let mut vm = VM::new(true);
    assert!(vm.trace());
    assert_eq!(vm.interpret(chunk(&[RET], &[])), InterpretResult::InterpretRuntimeError);
    assert_eq!(vm.interpret(chunk(&[C, 0, NEG, RET], &[4.0])), InterpretResult::InterpretOk);
    assert_eq!(eval(vm.returned().as_ref().unwrap(), &[4.0]), -4.0);
    assert_eq!(vm.chunk().code, vec![C, 0, NEG, RET]);
}

#[test]
fn return_pops_its_value_and_errors_leave_the_stack() {
    let mut vm = VM::new(false);
    assert_eq!(vm.interpret(chunk(&[C, 0, C, 1, ADD, RET], &[1.2, 3.4])), InterpretResult::InterpretOk);
    assert!(vm.stack().is_empty());
    assert_eq!(vm.ip(), 6);

    assert_eq!(vm.interpret(chunk(&[RET], &[])), InterpretResult::InterpretRuntimeError);
    assert!(vm.stack().is_empty());
    assert!(vm.returned().is_none());

    assert_eq!(vm.interpret(chunk(&[C, 0, 7, RET], &[1.0])), InterpretResult::InterpretRuntimeError);
    assert_eq!(*vm.stack(), vec![Term::Constant(0)]);
    assert_eq!(vm.ip(), 3);

    assert_eq!(vm.interpret(chunk(&[C, 0, ADD], &[1.0])), InterpretResult::InterpretRuntimeError);
    assert_eq!(*vm.stack(), vec![Term::Constant(0)]);

    assert_eq!(vm.interpret(chunk(&[C, 0, C, 5], &[1.0])), InterpretResult::InterpretRuntimeError);
    assert_eq!(*vm.stack(), vec![Term::Constant(0)]);
    assert_eq!(vm.ip(), 4);
}

#[test]
fn tracing_does_not_change_the_run() {
    let code = [C, 0, C, 1, SUB, NEG, RET];
    let mut quiet = VM::new(false);
    let mut traced = VM::new(true);
    let a = quiet.interpret(chunk(&code, &[1.0, 2.0]));
    let b = traced.interpret(chunk(&code, &[1.0, 2.0]));
    assert_eq!(a, b);
    assert_eq!(quiet.returned(), traced.returned());
    assert_eq!(quiet.stack(), traced.stack());
}
