//! The disassembler: decodes a chunk's instructions and renders them as text.
use vstd::prelude::*;
use crate::chunk::{Chunk, OpCode};

verus! {

/// What one instruction decodes to.
#[derive(Clone, Copy, Debug, PartialEq, Eq, Structural)]
pub enum Decoded {
    /// An instruction without operand.
    Simple(OpCode),
    /// `Constant` with its operand, the index into the pool.
    Constant(u8),
    /// `Constant` as the last byte of the code, without its operand.
    MissingOperand,
    /// A byte that encodes no instruction.
    Unknown(u8),
}

/// One line of a listing: the instruction's offset, its source line unless
/// it is the line of the byte before, and what it decodes to.
#[derive(Clone, Copy, Debug, PartialEq, Eq, Structural)]
pub struct Disassembled {
    pub offset: usize,
    pub line: Option<usize>,
    pub decoded: Decoded,
}

/// The instruction at `offset` and the offset of the next one.
pub open spec fn decode_at(code: Seq<u8>, lines: Seq<usize>, offset: nat) -> (Disassembled, nat) {
    let line = if offset > 0 && lines[offset - 1] == lines[offset as int] {
        None
    } else {
        Some(lines[offset as int])
    };
    let (decoded, size) = match OpCode::spec_decode(code[offset as int]) {
        Some(OpCode::Constant) => {
            if offset + 1 < code.len() {
                (Decoded::Constant(code[offset + 1 as int]), 2nat)
            } else {
                (Decoded::MissingOperand, 1nat)
            }
        },
        Some(op) => (Decoded::Simple(op), 1nat),
        None => (Decoded::Unknown(code[offset as int]), 1nat),
    };
    (Disassembled { offset: offset as usize, line, decoded }, offset + size)
}

/// The listing of the code from `offset` to its end.
pub open spec fn listing(code: Seq<u8>, lines: Seq<usize>, offset: nat) -> Seq<Disassembled>
    decreases code.len() - offset,
{
    if offset >= code.len() {
        Seq::empty()
    } else {
        let (d, next) = decode_at(code, lines, offset);
        if next > offset {
            seq![d] + listing(code, lines, next)
        } else {
            seq![d]
        }
    }
}

/// Decodes the instruction at `offset`: 2 bytes for `Constant` with its
/// operand, 1 for anything else, an unknown byte included.
pub fn disassemble_instruction<V>(chunk: &Chunk<V>, offset: usize) -> (r: (Disassembled, usize))
    requires
        chunk.wf(),
        offset < chunk.code@.len(),
    ensures
        (r.0, r.1 as nat) == decode_at(chunk.code@, chunk.lines@, offset as nat),
{
    let line = if offset > 0 && chunk.lines[offset - 1] == chunk.lines[offset] {
        None
    } else {
        Some(chunk.lines[offset])
    };
    let len = chunk.code.len();
    let (decoded, next) = match OpCode::decode(chunk.code[offset]) {
        Some(OpCode::Constant) => {
            if offset + 1 < len {
                (Decoded::Constant(chunk.code[offset + 1]), offset + 2)
            } else {
                (Decoded::MissingOperand, offset + 1)
            }
        },
        Some(op) => (Decoded::Simple(op), offset + 1),
        None => (Decoded::Unknown(chunk.code[offset]), offset + 1),
    };
    (Disassembled { offset, line, decoded }, next)
}

/// Decodes every instruction of the chunk, from offset 0 to the end.
pub fn disassemble<V>(chunk: &Chunk<V>) -> (r: Vec<Disassembled>)
    requires
        chunk.wf(),
    ensures
        r@ == listing(chunk.code@, chunk.lines@, 0),
{
    let mut out: Vec<Disassembled> = Vec::new();
    let mut offset: usize = 0;
    while offset < chunk.code.len()
        invariant
            chunk.wf(),
            offset <= chunk.code@.len(),
            out@ + listing(chunk.code@, chunk.lines@, offset as nat) == listing(
                chunk.code@,
                chunk.lines@,
                0,
            ),
        decreases chunk.code@.len() - offset,
    {
        let (d, next) = disassemble_instruction(chunk, offset);
        proof {
            let rest = listing(chunk.code@, chunk.lines@, next as nat);
            assert(listing(chunk.code@, chunk.lines@, offset as nat) == seq![d] + rest);
            assert(out@.push(d) + rest =~= out@ + (seq![d] + rest));
        }
        out.push(d);
        offset = next;
    }
    assert(out@ + listing(chunk.code@, chunk.lines@, offset as nat) =~= out@);
    out
}

/// The text of one decimal digit.
pub open spec fn digit_text(d: nat) -> Seq<char> {
    if d == 0 {
        "0"@
    } else if d == 1 {
        "1"@
    } else if d == 2 {
        "2"@
    } else if d == 3 {
        "3"@
    } else if d == 4 {
        "4"@
    } else if d == 5 {
        "5"@
    } else if d == 6 {
        "6"@
    } else if d == 7 {
        "7"@
    } else if d == 8 {
        "8"@
    } else {
        "9"@
    }
}

/// `n` in decimal, without leading zeros.
pub open spec fn decimal(n: nat) -> Seq<char>
    decreases n,
{
    if n < 10 {
        digit_text(n)
    } else {
        decimal(n / 10) + digit_text(n % 10)
    }
}

/// `k` zeros.
pub open spec fn zeros(k: nat) -> Seq<char>
    decreases k,
{
    if k == 0 {
        Seq::empty()
    } else {
        zeros((k - 1) as nat) + "0"@
    }
}

/// `n` in decimal, padded with leading zeros to at least four digits.
pub open spec fn padded4(n: nat) -> Seq<char> {
    if decimal(n).len() < 4 {
        zeros((4 - decimal(n).len()) as nat) + decimal(n)
    } else {
        decimal(n)
    }
}

/// The text of an instruction, given the text of the constant it loads.
pub open spec fn body_text(d: Decoded, value: Seq<char>) -> Seq<char> {
    match d {
        Decoded::Simple(op) => op.spec_mnemonic(),
        Decoded::Constant(index) => OpCode::Constant.spec_mnemonic() + "  "@ + decimal(index as nat)
            + " '"@ + value + "'"@,
        Decoded::MissingOperand => OpCode::Constant.spec_mnemonic() + "  missing operand"@,
        Decoded::Unknown(_) => "unknown opcode"@,
    }
}

/// A listing line: the offset, the source line or `|` under a repeated one,
/// and the instruction.
pub open spec fn line_text(d: Disassembled, value: Seq<char>) -> Seq<char> {
    padded4(d.offset as nat) + " "@ + match d.line {
        Some(l) => padded4(l as nat) + " "@,
        None => "   | "@,
    } + body_text(d.decoded, value)
}

fn digit(d: usize) -> (r: &'static str)
    requires
        d < 10,
    ensures
        r@ == digit_text(d as nat),
        r@.len() == 1,
{
    proof {
        reveal_strlit("0");
        reveal_strlit("1");
        reveal_strlit("2");
        reveal_strlit("3");
        reveal_strlit("4");
        reveal_strlit("5");
        reveal_strlit("6");
        reveal_strlit("7");
        reveal_strlit("8");
        reveal_strlit("9");
    }
    if d == 0 {
        "0"
    } else if d == 1 {
        "1"
    } else if d == 2 {
        "2"
    } else if d == 3 {
        "3"
    } else if d == 4 {
        "4"
    } else if d == 5 {
        "5"
    } else if d == 6 {
        "6"
    } else if d == 7 {
        "7"
    } else if d == 8 {
        "8"
    } else {
        "9"
    }
}

/// Appends `n` in decimal.
fn push_decimal(out: &mut String, n: usize)
    ensures
        final(out)@ == old(out)@ + decimal(n as nat),
    decreases n,
{
    if n < 10 {
        out.append(digit(n));
    } else {
        push_decimal(out, n / 10);
        out.append(digit(n % 10));
        assert(final(out)@ =~= old(out)@ + decimal(n as nat));
    }
}

/// The number of decimal digits of `n`.
fn decimal_len(n: usize) -> (r: usize)
    ensures
        r == decimal(n as nat).len(),
        1 <= r <= n as int + 1,
    decreases n,
{
    proof {
        reveal_strlit("0");
        reveal_strlit("1");
        reveal_strlit("2");
        reveal_strlit("3");
        reveal_strlit("4");
        reveal_strlit("5");
        reveal_strlit("6");
        reveal_strlit("7");
        reveal_strlit("8");
        reveal_strlit("9");
    }
    if n < 10 {
        1
    } else {
        decimal_len(n / 10) + 1
    }
}

/// Appends `n` zero-padded to four digits.
fn push_padded4(out: &mut String, n: usize)
    ensures
        final(out)@ == old(out)@ + padded4(n as nat),
{
    let len = decimal_len(n);
    let mut k: usize = 0;
    let ghost start = out@;
    if len < 4 {
        while k < 4 - len
            invariant
                len == decimal(n as nat).len(),
                len < 4,
                k <= 4 - len,
                out@ == start + zeros(k as nat),
            decreases 4 - len - k,
        {
            out.append("0");
            proof {
                assert(out@ =~= start + zeros((k + 1) as nat));
            }
            k = k + 1;
        }
    }
    push_decimal(out, n);
    assert(out@ =~= start + padded4(n as nat));
}

impl Disassembled {
    /// The listing line, with `value` as the text of the constant that a
    /// `Constant` instruction loads.
    pub fn text(&self, value: &str) -> (r: String)
        ensures
            r@ == line_text(*self, value@),
    {
        let mut out = String::new();
        push_padded4(&mut out, self.offset);
        out.append(" ");
        match self.line {
            Some(l) => {
                push_padded4(&mut out, l);
                out.append(" ");
            },
            None => out.append("   | "),
        }
        match self.decoded {
            Decoded::Simple(op) => out.append(op.mnemonic()),
            Decoded::Constant(index) => {
                out.append(OpCode::Constant.mnemonic());
                out.append("  ");
                push_decimal(&mut out, index as usize);
                out.append(" '");
                out.append(value);
                out.append("'");
            },
            Decoded::MissingOperand => {
                out.append(OpCode::Constant.mnemonic());
                out.append("  missing operand");
            },
            Decoded::Unknown(_) => out.append("unknown opcode"),
        }
        assert(out@ =~= line_text(*self, value@));
        out
    }
}

} // verus!
