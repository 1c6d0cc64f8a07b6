//! The parser: source text to instruction records and a label table.
//!
//! A non-empty line is an optional label token (a token starting with `.`,
//! the rest of the token being the label name), either standing alone or
//! followed by an instruction; or a plain instruction. Tokens are separated
//! by whitespace. A running counter starts at 0 and grows by 4 for every
//! instruction line; a label is bound to the counter's value where it is
//! met, the address of the next instruction to be emitted.

use vstd::prelude::*;
use crate::text::{
    copy_bytes, dec_u32, lines_of, parse_u32, split_lines, sub_bytes, tokenize, tokens_of,
    lemma_lines_of_len,
};
use vstd::slice::slice_subrange;
use vstd::string::StringSliceAdditionalSpecFns;
use crate::machine::{State, init_state};
use crate::Prog;

verus! {

/// One instruction: an opcode with its parsed operands. Register ids are
/// parsed from `rN` tokens but not range-checked here; jump and branch
/// targets stay label names until execution resolves them.
#[derive(Debug)]
pub enum Instr {
    Mov { rd: u32, rs: u32 },
    Movi { rd: u32, imm: u32 },
    Add { rd: u32, rs: u32, rt: u32 },
    Sub { rd: u32, rs: u32, rt: u32 },
    Lw { rt: u32, rs: u32, imm: u32 },
    Sw { rt: u32, rs: u32, imm: u32 },
    Beq { rs: u32, rt: u32, target: Vec<u8> },
    Bne { rs: u32, rt: u32, target: Vec<u8> },
    J { target: Vec<u8> },
    Jal { target: Vec<u8> },
    Exit,
}

/// The mathematical value of an `Instr`.
pub enum InstrV {
    Mov { rd: u32, rs: u32 },
    Movi { rd: u32, imm: u32 },
    Add { rd: u32, rs: u32, rt: u32 },
    Sub { rd: u32, rs: u32, rt: u32 },
    Lw { rt: u32, rs: u32, imm: u32 },
    Sw { rt: u32, rs: u32, imm: u32 },
    Beq { rs: u32, rt: u32, target: Seq<u8> },
    Bne { rs: u32, rt: u32, target: Seq<u8> },
    J { target: Seq<u8> },
    Jal { target: Seq<u8> },
    Exit,
}

impl View for Instr {
    type V = InstrV;

    open spec fn view(&self) -> InstrV {
        match self {
            Instr::Mov { rd, rs } => InstrV::Mov { rd: *rd, rs: *rs },
            Instr::Movi { rd, imm } => InstrV::Movi { rd: *rd, imm: *imm },
            Instr::Add { rd, rs, rt } => InstrV::Add { rd: *rd, rs: *rs, rt: *rt },
            Instr::Sub { rd, rs, rt } => InstrV::Sub { rd: *rd, rs: *rs, rt: *rt },
            Instr::Lw { rt, rs, imm } => InstrV::Lw { rt: *rt, rs: *rs, imm: *imm },
            Instr::Sw { rt, rs, imm } => InstrV::Sw { rt: *rt, rs: *rs, imm: *imm },
            Instr::Beq { rs, rt, target } => InstrV::Beq { rs: *rs, rt: *rt, target: target@ },
            Instr::Bne { rs, rt, target } => InstrV::Bne { rs: *rs, rt: *rt, target: target@ },
            Instr::J { target } => InstrV::J { target: target@ },
            Instr::Jal { target } => InstrV::Jal { target: target@ },
            Instr::Exit => InstrV::Exit,
        }
    }
}

/// One parsed source line that contributes something: a label binding, an
/// instruction, or both on the same line.
#[derive(Debug)]
pub struct Line {
    pub label: Option<Vec<u8>>,
    pub instr: Option<Instr>,
}

/// The mathematical value of a `Line`.
pub struct LineV {
    pub label: Option<Seq<u8>>,
    pub instr: Option<InstrV>,
}

impl View for Line {
    type V = LineV;

    open spec fn view(&self) -> LineV {
        LineV {
            label: match self.label {
                Some(ref name) => Some(name@),
                None => None,
            },
            instr: match self.instr {
                Some(ref i) => Some(i@),
                None => None,
            },
        }
    }
}

/// Why a line was rejected.
#[derive(Clone, Copy, PartialEq, Eq, Structural, Debug)]
pub enum ParseReason {
    /// The first instruction token is no known opcode.
    UnknownOpcode,
    /// The line ends before the opcode's required operands do.
    MissingOperand,
    /// A register operand is not `r` followed by a decimal number
    /// within 32 bits.
    MalformedRegister,
    /// An immediate operand is not a decimal number within 32 bits.
    MalformedImmediate,
}

/// A parse error: the offending line (counted from 0) and the reason.
/// Parsing stops at the first error.
#[derive(Clone, Copy, PartialEq, Eq, Structural, Debug)]
pub struct ParseError {
    pub line: usize,
    pub reason: ParseReason,
}

/// The opcodes of the dialect.
#[derive(Clone, Copy, Debug)]
pub enum Op {
    Mov,
    Movi,
    Add,
    Sub,
    Lw,
    Sw,
    Beq,
    Bne,
    J,
    Jal,
    Exit,
}

/// The opcode named by a token, if any.
pub open spec fn spec_op(t: Seq<u8>) -> Option<Op> {
    if t == seq![('m' as u8), ('o' as u8), ('v' as u8)] {
        Some(Op::Mov)
    } else if t == seq![('m' as u8), ('o' as u8), ('v' as u8), ('i' as u8)] {
        Some(Op::Movi)
    } else if t == seq![('a' as u8), ('d' as u8), ('d' as u8)] {
        Some(Op::Add)
    } else if t == seq![('s' as u8), ('u' as u8), ('b' as u8)] {
        Some(Op::Sub)
    } else if t == seq![('l' as u8), ('w' as u8)] {
        Some(Op::Lw)
    } else if t == seq![('s' as u8), ('w' as u8)] {
        Some(Op::Sw)
    } else if t == seq![('b' as u8), ('e' as u8), ('q' as u8)] {
        Some(Op::Beq)
    } else if t == seq![('b' as u8), ('n' as u8), ('e' as u8)] {
        Some(Op::Bne)
    } else if t == seq![('j' as u8)] {
        Some(Op::J)
    } else if t == seq![('j' as u8), ('a' as u8), ('l' as u8)] {
        Some(Op::Jal)
    } else if t == seq![('e' as u8), ('x' as u8), ('i' as u8), ('t' as u8)] {
        Some(Op::Exit)
    } else {
        None
    }
}

fn tok_eq1(t: &[u8], a: u8) -> (r: bool)
    ensures
        r == (t@ == seq![a]),
{
    if t.len() == 1 && t[0] == a {
        proof {
            assert(t@ =~= seq![a]);
        }
        true
    } else {
        false
    }
}

fn tok_eq2(t: &[u8], a: u8, b: u8) -> (r: bool)
    ensures
        r == (t@ == seq![a, b]),
{
    if t.len() == 2 && t[0] == a && t[1] == b {
        proof {
            assert(t@ =~= seq![a, b]);
        }
        true
    } else {
        false
    }
}

fn tok_eq3(t: &[u8], a: u8, b: u8, c: u8) -> (r: bool)
    ensures
        r == (t@ == seq![a, b, c]),
{
    if t.len() == 3 && t[0] == a && t[1] == b && t[2] == c {
        proof {
            assert(t@ =~= seq![a, b, c]);
        }
        true
    } else {
        false
    }
}

fn tok_eq4(t: &[u8], a: u8, b: u8, c: u8, d: u8) -> (r: bool)
    ensures
        r == (t@ == seq![a, b, c, d]),
{
    if t.len() == 4 && t[0] == a && t[1] == b && t[2] == c && t[3] == d {
        proof {
            assert(t@ =~= seq![a, b, c, d]);
        }
        true
    } else {
        false
    }
}

/// The opcode named by a token, if any.
pub fn op_of(t: &[u8]) -> (r: Option<Op>)
    ensures
        r == spec_op(t@),
{
    if tok_eq3(t, ('m' as u8), ('o' as u8), ('v' as u8)) {
        Some(Op::Mov)
    } else if tok_eq4(t, ('m' as u8), ('o' as u8), ('v' as u8), ('i' as u8)) {
        Some(Op::Movi)
    } else if tok_eq3(t, ('a' as u8), ('d' as u8), ('d' as u8)) {
        Some(Op::Add)
    } else if tok_eq3(t, ('s' as u8), ('u' as u8), ('b' as u8)) {
        Some(Op::Sub)
    } else if tok_eq2(t, ('l' as u8), ('w' as u8)) {
        Some(Op::Lw)
    } else if tok_eq2(t, ('s' as u8), ('w' as u8)) {
        Some(Op::Sw)
    } else if tok_eq3(t, ('b' as u8), ('e' as u8), ('q' as u8)) {
        Some(Op::Beq)
    } else if tok_eq3(t, ('b' as u8), ('n' as u8), ('e' as u8)) {
        Some(Op::Bne)
    } else if tok_eq1(t, ('j' as u8)) {
        Some(Op::J)
    } else if tok_eq3(t, ('j' as u8), ('a' as u8), ('l' as u8)) {
        Some(Op::Jal)
    } else if tok_eq4(t, ('e' as u8), ('x' as u8), ('i' as u8), ('t' as u8)) {
        Some(Op::Exit)
    } else {
        None
    }
}

/// A register operand: `r` followed by a decimal register number. The
/// number is not checked against the register-file size here; execution
/// range-checks it.
pub open spec fn spec_parse_reg(t: Seq<u8>) -> Option<u32> {
    if t.len() >= 1 && t[0] == ('r' as u8) {
        dec_u32(t.drop_first())
    } else {
        None
    }
}

/// Parse a register operand token.
pub fn parse_reg(t: &[u8]) -> (r: Option<u32>)
    ensures
        r == spec_parse_reg(t@),
{
    if t.len() >= 1 && t[0] == ('r' as u8) {
        let rest = sub_bytes(t, 1, t.len());
        proof {
            assert(rest@ =~= t@.drop_first());
        }
        parse_u32(rest)
    } else {
        None
    }
}

/// The views of a sequence of tokens.
pub open spec fn toks_view(ts: Seq<Vec<u8>>) -> Seq<Seq<u8>> {
    ts.map_values(|t: Vec<u8>| t@)
}

/// Parse an instruction from its tokens: the opcode token, then the
/// operands the opcode requires, left to right. Surplus tokens are ignored.
pub open spec fn spec_parse_instr(toks: Seq<Seq<u8>>) -> Result<InstrV, ParseReason>
    recommends
        toks.len() >= 1,
{
    match spec_op(toks[0]) {
        None => Err(ParseReason::UnknownOpcode),
        Some(op) => match op {
            Op::Mov => {
                if toks.len() < 3 {
                    Err(ParseReason::MissingOperand)
                } else {
                    match (spec_parse_reg(toks[1]), spec_parse_reg(toks[2])) {
                        (Some(rd), Some(rs)) => Ok(InstrV::Mov { rd, rs }),
                        _ => Err(ParseReason::MalformedRegister),
                    }
                }
            },
            Op::Movi => {
                if toks.len() < 3 {
                    Err(ParseReason::MissingOperand)
                } else {
                    match spec_parse_reg(toks[1]) {
                        None => Err(ParseReason::MalformedRegister),
                        Some(rd) => match dec_u32(toks[2]) {
                            None => Err(ParseReason::MalformedImmediate),
                            Some(imm) => Ok(InstrV::Movi { rd, imm }),
                        },
                    }
                }
            },
            Op::Add => {
                if toks.len() < 4 {
                    Err(ParseReason::MissingOperand)
                } else {
                    match (spec_parse_reg(toks[1]), spec_parse_reg(toks[2]), spec_parse_reg(
                        toks[3],
                    )) {
                        (Some(rd), Some(rs), Some(rt)) => Ok(InstrV::Add { rd, rs, rt }),
                        _ => Err(ParseReason::MalformedRegister),
                    }
                }
            },
            Op::Sub => {
                if toks.len() < 4 {
                    Err(ParseReason::MissingOperand)
                } else {
                    match (spec_parse_reg(toks[1]), spec_parse_reg(toks[2]), spec_parse_reg(
                        toks[3],
                    )) {
                        (Some(rd), Some(rs), Some(rt)) => Ok(InstrV::Sub { rd, rs, rt }),
                        _ => Err(ParseReason::MalformedRegister),
                    }
                }
            },
            Op::Lw => {
                if toks.len() < 4 {
                    Err(ParseReason::MissingOperand)
                } else {
                    match (spec_parse_reg(toks[1]), spec_parse_reg(toks[2])) {
                        (Some(rt), Some(rs)) => match dec_u32(toks[3]) {
                            None => Err(ParseReason::MalformedImmediate),
                            Some(imm) => Ok(InstrV::Lw { rt, rs, imm }),
                        },
                        _ => Err(ParseReason::MalformedRegister),
                    }
                }
            },
            Op::Sw => {
                if toks.len() < 4 {
                    Err(ParseReason::MissingOperand)
                } else {
                    match (spec_parse_reg(toks[1]), spec_parse_reg(toks[2])) {
                        (Some(rt), Some(rs)) => match dec_u32(toks[3]) {
                            None => Err(ParseReason::MalformedImmediate),
                            Some(imm) => Ok(InstrV::Sw { rt, rs, imm }),
                        },
                        _ => Err(ParseReason::MalformedRegister),
                    }
                }
            },
            Op::Beq => {
                if toks.len() < 4 {
                    Err(ParseReason::MissingOperand)
                } else {
                    match (spec_parse_reg(toks[1]), spec_parse_reg(toks[2])) {
                        (Some(rs), Some(rt)) => Ok(InstrV::Beq { rs, rt, target: toks[3] }),
                        _ => Err(ParseReason::MalformedRegister),
                    }
                }
            },
            Op::Bne => {
                if toks.len() < 4 {
                    Err(ParseReason::MissingOperand)
                } else {
                    match (spec_parse_reg(toks[1]), spec_parse_reg(toks[2])) {
                        (Some(rs), Some(rt)) => Ok(InstrV::Bne { rs, rt, target: toks[3] }),
                        _ => Err(ParseReason::MalformedRegister),
                    }
                }
            },
            Op::J => {
                if toks.len() < 2 {
                    Err(ParseReason::MissingOperand)
                } else {
                    Ok(InstrV::J { target: toks[1] })
                }
            },
            Op::Jal => {
                if toks.len() < 2 {
                    Err(ParseReason::MissingOperand)
                } else {
                    Ok(InstrV::Jal { target: toks[1] })
                }
            },
            Op::Exit => Ok(InstrV::Exit),
        },
    }
}

/// Parse an instruction from its tokens.
fn parse_instr(ts: &[Vec<u8>]) -> (r: Result<Instr, ParseReason>)
    requires
        ts@.len() >= 1,
    ensures
        (match r {
            Ok(i) => spec_parse_instr(toks_view(ts@)) == Ok::<InstrV, ParseReason>(i@),
            Err(e) => spec_parse_instr(toks_view(ts@)) == Err::<InstrV, ParseReason>(e),
        }),
{
    let op = match op_of(ts[0].as_slice()) {
        Some(op) => op,
        None => {
            return Err(ParseReason::UnknownOpcode);
        },
    };
    match op {
        Op::Mov => {
            if ts.len() < 3 {
                return Err(ParseReason::MissingOperand);
            }
            let rd = match parse_reg(ts[1].as_slice()) {
                Some(r) => r,
                None => {
                    return Err(ParseReason::MalformedRegister);
                },
            };
            let rs = match parse_reg(ts[2].as_slice()) {
                Some(r) => r,
                None => {
                    return Err(ParseReason::MalformedRegister);
                },
            };
            Ok(Instr::Mov { rd, rs })
        },
        Op::Movi => {
            if ts.len() < 3 {
                return Err(ParseReason::MissingOperand);
            }
            let rd = match parse_reg(ts[1].as_slice()) {
                Some(r) => r,
                None => {
                    return Err(ParseReason::MalformedRegister);
                },
            };
            let imm = match parse_u32(ts[2].as_slice()) {
                Some(v) => v,
                None => {
                    return Err(ParseReason::MalformedImmediate);
                },
            };
            Ok(Instr::Movi { rd, imm })
        },
        Op::Add => {
            if ts.len() < 4 {
                return Err(ParseReason::MissingOperand);
            }
            let rd = match parse_reg(ts[1].as_slice()) {
                Some(r) => r,
                None => {
                    return Err(ParseReason::MalformedRegister);
                },
            };
            let rs = match parse_reg(ts[2].as_slice()) {
                Some(r) => r,
                None => {
                    return Err(ParseReason::MalformedRegister);
                },
            };
            let rt = match parse_reg(ts[3].as_slice()) {
                Some(r) => r,
                None => {
                    return Err(ParseReason::MalformedRegister);
                },
            };
            Ok(Instr::Add { rd, rs, rt })
        },
        Op::Sub => {
            if ts.len() < 4 {
                return Err(ParseReason::MissingOperand);
            }
            let rd = match parse_reg(ts[1].as_slice()) {
                Some(r) => r,
                None => {
                    return Err(ParseReason::MalformedRegister);
                },
            };
            let rs = match parse_reg(ts[2].as_slice()) {
                Some(r) => r,
                None => {
                    return Err(ParseReason::MalformedRegister);
                },
            };
            let rt = match parse_reg(ts[3].as_slice()) {
                Some(r) => r,
                None => {
                    return Err(ParseReason::MalformedRegister);
                },
            };
            Ok(Instr::Sub { rd, rs, rt })
        },
        Op::Lw => {
            if ts.len() < 4 {
                return Err(ParseReason::MissingOperand);
            }
            let rt = match parse_reg(ts[1].as_slice()) {
                Some(r) => r,
                None => {
                    return Err(ParseReason::MalformedRegister);
                },
            };
            let rs = match parse_reg(ts[2].as_slice()) {
                Some(r) => r,
                None => {
                    return Err(ParseReason::MalformedRegister);
                },
            };
            let imm = match parse_u32(ts[3].as_slice()) {
                Some(v) => v,
                None => {
                    return Err(ParseReason::MalformedImmediate);
                },
            };
            Ok(Instr::Lw { rt, rs, imm })
        },
        Op::Sw => {
            if ts.len() < 4 {
                return Err(ParseReason::MissingOperand);
            }
            let rt = match parse_reg(ts[1].as_slice()) {
                Some(r) => r,
                None => {
                    return Err(ParseReason::MalformedRegister);
                },
            };
            let rs = match parse_reg(ts[2].as_slice()) {
                Some(r) => r,
                None => {
                    return Err(ParseReason::MalformedRegister);
                },
            };
            let imm = match parse_u32(ts[3].as_slice()) {
                Some(v) => v,
                None => {
                    return Err(ParseReason::MalformedImmediate);
                },
            };
            Ok(Instr::Sw { rt, rs, imm })
        },
        Op::Beq => {
            if ts.len() < 4 {
                return Err(ParseReason::MissingOperand);
            }
            let rs = match parse_reg(ts[1].as_slice()) {
                Some(r) => r,
                None => {
                    return Err(ParseReason::MalformedRegister);
                },
            };
            let rt = match parse_reg(ts[2].as_slice()) {
                Some(r) => r,
                None => {
                    return Err(ParseReason::MalformedRegister);
                },
            };
            let target = copy_bytes(ts[3].as_slice());
            Ok(Instr::Beq { rs, rt, target })
        },
        Op::Bne => {
            if ts.len() < 4 {
                return Err(ParseReason::MissingOperand);
            }
            let rs = match parse_reg(ts[1].as_slice()) {
                Some(r) => r,
                None => {
                    return Err(ParseReason::MalformedRegister);
                },
            };
            let rt = match parse_reg(ts[2].as_slice()) {
                Some(r) => r,
                None => {
                    return Err(ParseReason::MalformedRegister);
                },
            };
            let target = copy_bytes(ts[3].as_slice());
            Ok(Instr::Bne { rs, rt, target })
        },
        Op::J => {
            if ts.len() < 2 {
                return Err(ParseReason::MissingOperand);
            }
            let target = copy_bytes(ts[1].as_slice());
            Ok(Instr::J { target })
        },
        Op::Jal => {
            if ts.len() < 2 {
                return Err(ParseReason::MissingOperand);
            }
            let target = copy_bytes(ts[1].as_slice());
            Ok(Instr::Jal { target })
        },
        Op::Exit => Ok(Instr::Exit),
    }
}

/// Parse one source line. An empty (all-whitespace) line is `Ok(None)`; a
/// line whose first token starts with `.` binds a label, either alone or
/// followed by an instruction on the same line.
pub open spec fn spec_parse_line(line: Seq<u8>) -> Result<Option<LineV>, ParseReason> {
    let toks = tokens_of(line);
    if toks.len() == 0 {
        Ok(None)
    } else if toks[0].len() >= 1 && toks[0][0] == ('.' as u8) {
        let name = toks[0].drop_first();
        if toks.len() == 1 {
            Ok(Some(LineV { label: Some(name), instr: None }))
        } else {
            match spec_parse_instr(toks.skip(1)) {
                Ok(iv) => Ok(Some(LineV { label: Some(name), instr: Some(iv) })),
                Err(e) => Err(e),
            }
        }
    } else {
        match spec_parse_instr(toks) {
            Ok(iv) => Ok(Some(LineV { label: None, instr: Some(iv) })),
            Err(e) => Err(e),
        }
    }
}

/// Parse one source line, given as bytes.
pub fn parse_line_bytes(line: &[u8]) -> (r: Result<Option<Line>, ParseReason>)
    ensures
        (match r {
            Ok(None) => spec_parse_line(line@) == Ok::<Option<LineV>, ParseReason>(None),
            Ok(Some(l)) => spec_parse_line(line@) == Ok::<Option<LineV>, ParseReason>(Some(l@)),
            Err(e) => spec_parse_line(line@) == Err::<Option<LineV>, ParseReason>(e),
        }),
{
    let toks = tokenize(line);
    if toks.len() == 0 {
        return Ok(None);
    }
    let first = &toks[0];
    if first.len() >= 1 && first[0] == ('.' as u8) {
        let name = copy_bytes(sub_bytes(first.as_slice(), 1, first.len()));
        proof {
            assert(name@ =~= tokens_of(line@)[0].drop_first());
        }
        if toks.len() == 1 {
            return Ok(Some(Line { label: Some(name), instr: None }));
        }
        let rest = slice_subrange(toks.as_slice(), 1, toks.len());
        proof {
            assert(toks_view(rest@) =~= tokens_of(line@).skip(1));
        }
        match parse_instr(rest) {
            Ok(i) => Ok(Some(Line { label: Some(name), instr: Some(i) })),
            Err(e) => Err(e),
        }
    } else {
        match parse_instr(toks.as_slice()) {
            Ok(i) => Ok(Some(Line { label: None, instr: Some(i) })),
            Err(e) => Err(e),
        }
    }
}

/// Parse one source line.
pub fn parse_line(line: &str) -> (r: Result<Option<Line>, ParseReason>)
    ensures
        (match r {
            Ok(None) => spec_parse_line(line.spec_bytes()) == Ok::<Option<LineV>, ParseReason>(
                None,
            ),
            Ok(Some(l)) => spec_parse_line(line.spec_bytes()) == Ok::<Option<LineV>, ParseReason>(
                Some(l@),
            ),
            Err(e) => spec_parse_line(line.spec_bytes()) == Err::<Option<LineV>, ParseReason>(e),
        }),
{
    parse_line_bytes(line.as_bytes())
}

/// The views of a sequence of parsed lines.
pub open spec fn lines_view(ls: Seq<Line>) -> Seq<LineV> {
    ls.map_values(|l: Line| l@)
}

/// The views of a label table.
pub open spec fn labels_view(ls: Seq<(Vec<u8>, u32)>) -> Seq<(Seq<u8>, u32)> {
    ls.map_values(|p: (Vec<u8>, u32)| (p.0@, p.1))
}

/// The instruction list and label table that a sequence of source lines
/// builds, or the first line that fails with its reason. A label is bound
/// to 4 times the number of instructions already emitted; a later binding
/// of the same name wins.
pub open spec fn spec_build(ls: Seq<Seq<u8>>) -> Result<
    (Seq<LineV>, Seq<(Seq<u8>, u32)>),
    (int, ParseReason),
>
    decreases ls.len(),
{
    if ls.len() == 0 {
        Ok((seq![], seq![]))
    } else {
        match spec_build(ls.drop_last()) {
            Err(e) => Err(e),
            Ok((instrs, labels)) => match spec_parse_line(ls.last()) {
                Err(reason) => Err((ls.len() - 1, reason)),
                Ok(None) => Ok((instrs, labels)),
                Ok(Some(lv)) => {
                    let labels2 = match lv.label {
                        Some(name) => labels.push((name, (4 * instrs.len()) as u32)),
                        None => labels,
                    };
                    let instrs2 = match lv.instr {
                        Some(_) => instrs.push(lv),
                        None => instrs,
                    };
                    Ok((instrs2, labels2))
                },
            },
        }
    }
}

/// The address bound to `name` in a label table: the binding nearest the
/// end wins, matching a table where a later insert replaces an earlier one.
pub open spec fn spec_lookup(labels: Seq<(Seq<u8>, u32)>, name: Seq<u8>) -> Option<u32>
    decreases labels.len(),
{
    if labels.len() == 0 {
        None
    } else if labels.last().0 == name {
        Some(labels.last().1)
    } else {
        spec_lookup(labels.drop_last(), name)
    }
}

/// Once a line has failed, the whole source fails the same way.
proof fn lemma_build_err_persists(ls: Seq<Seq<u8>>, j: int)
    requires
        0 <= j <= ls.len(),
        spec_build(ls.take(j)) is Err,
    ensures
        spec_build(ls) == spec_build(ls.take(j)),
    decreases ls.len() - j,
{
    if j < ls.len() {
        assert(ls.take(j + 1).drop_last() =~= ls.take(j));
        assert(spec_build(ls.take(j + 1)) == spec_build(ls.take(j)));
        lemma_build_err_persists(ls, j + 1);
    } else {
        assert(ls.take(j) =~= ls);
    }
}

/// The label a source line binds, if it parses and binds one.
pub open spec fn spec_line_label(l: Seq<u8>) -> Option<Seq<u8>> {
    match spec_parse_line(l) {
        Ok(Some(lv)) => lv.label,
        _ => None,
    }
}

/// Whether a source line parses and contributes an instruction.
pub open spec fn spec_line_is_instr(l: Seq<u8>) -> bool {
    match spec_parse_line(l) {
        Ok(Some(lv)) => lv.instr is Some,
        _ => false,
    }
}

/// The number of instruction lines among `ls`.
pub open spec fn spec_instr_count(ls: Seq<Seq<u8>>) -> int
    decreases ls.len(),
{
    if ls.len() == 0 {
        0
    } else {
        spec_instr_count(ls.drop_last()) + if spec_line_is_instr(ls.last()) {
            1int
        } else {
            0int
        }
    }
}

/// A built program holds exactly one record per instruction line.
proof fn lemma_build_count(ls: Seq<Seq<u8>>)
    requires
        spec_build(ls) is Ok,
    ensures
        spec_build(ls)->Ok_0.0.len() == spec_instr_count(ls),
    decreases ls.len(),
{
    if ls.len() > 0 {
        lemma_build_count(ls.drop_last());
    }
}

/// Law: a label is bound to 4 times the number of instruction lines that
/// precede it in the source — label-only lines never count — and, where a
/// name is bound more than once, the binding nearest the end of the source
/// is the one the table answers with. Forward and backward references
/// therefore resolve to the same addresses: the table does not depend on
/// where the name is used.
#[verifier::rlimit(100)]
pub proof fn lemma_label_address(ls: Seq<Seq<u8>>, k: int, name: Seq<u8>)
    requires
        spec_build(ls) is Ok,
        0 <= k < ls.len(),
        spec_line_label(ls[k]) == Some(name),
        forall|j: int| k < j < ls.len() ==> spec_line_label(#[trigger] ls[j]) != Some(name),
    ensures
        spec_lookup(spec_build(ls)->Ok_0.1, name) == Some(
            (4 * spec_instr_count(ls.take(k))) as u32,
        ),
    decreases ls.len(),
{
    let prefix = ls.drop_last();
    assert(spec_build(prefix) is Ok);
    let built = spec_build(prefix)->Ok_0;
    if k == ls.len() - 1 {
        lemma_build_count(prefix);
        assert(prefix =~= ls.take(k));
        match spec_parse_line(ls.last()) {
            Ok(Some(lv)) => {
                let addr = (4 * built.0.len()) as u32;
                let labels2 = built.1.push((name, addr));
                assert(lv.label == Some(name));
                assert(spec_build(ls)->Ok_0.1 == labels2);
                assert(labels2.last() == (name, addr));
                assert(spec_lookup(labels2, name) == Some(addr));
            },
            _ => {
                assert(false);
            },
        }
    } else {
        assert(spec_line_label(ls[ls.len() - 1]) != Some(name));
        assert(forall|j: int|
            k < j < prefix.len() ==> spec_line_label(#[trigger] prefix[j]) != Some(name));
        lemma_label_address(prefix, k, name);
        assert(ls.take(k) =~= prefix.take(k));
        match spec_parse_line(ls.last()) {
            Ok(Some(lv)) => {
                match lv.label {
                    Some(other) => {
                        assert(other != name);
                        let addr = (4 * built.0.len()) as u32;
                        let labels2 = built.1.push((other, addr));
                        assert(spec_build(ls)->Ok_0.1 == labels2);
                        assert(labels2.drop_last() =~= built.1);
                        assert(spec_lookup(labels2, name) == spec_lookup(built.1, name));
                    },
                    None => {
                        assert(spec_build(ls)->Ok_0.1 == built.1);
                    },
                }
            },
            Ok(None) => {
                assert(spec_build(ls)->Ok_0.1 == built.1);
            },
            Err(_) => {
                assert(false);
            },
        }
    }
}

/// Parse a whole source text into a program with a fresh machine state.
///
/// The length bound keeps every instruction address within the signed
/// 32-bit program counter.
pub fn parse_prog(prog: &str) -> (r: Result<Prog, ParseError>)
    requires
        prog.spec_bytes().len() <= 0x1FFF_FFFF,
    ensures
        (match r {
            Ok(p) => {
                &&& spec_build(lines_of(prog.spec_bytes())) == Ok::<
                    (Seq<LineV>, Seq<(Seq<u8>, u32)>),
                    (int, ParseReason),
                >((lines_view(p.lines@), labels_view(p.labels@)))
                &&& p.wf()
                &&& p.state@ == init_state()
            },
            Err(e) => spec_build(lines_of(prog.spec_bytes())) == Err::<
                (Seq<LineV>, Seq<(Seq<u8>, u32)>),
                (int, ParseReason),
            >((e.line as int, e.reason)),
        }),
{
    let bytes = prog.as_bytes();
    let ls = split_lines(bytes);
    let ghost lsv = lines_of(prog.spec_bytes());
    proof {
        lemma_lines_of_len(prog.spec_bytes());
    }
    let mut lines: Vec<Line> = Vec::new();
    let mut labels: Vec<(Vec<u8>, u32)> = Vec::new();
    let mut pc: u32 = 0;
    let mut i: usize = 0;
    proof {
        assert(lsv.take(0) =~= Seq::<Seq<u8>>::empty());
        assert(lines_view(lines@) =~= Seq::<LineV>::empty());
        assert(labels_view(labels@) =~= Seq::<(Seq<u8>, u32)>::empty());
        assert(spec_build(Seq::<Seq<u8>>::empty()) == Ok::<
            (Seq<LineV>, Seq<(Seq<u8>, u32)>),
            (int, ParseReason),
        >((Seq::<LineV>::empty(), Seq::<(Seq<u8>, u32)>::empty())));
    }
    while i < ls.len()
        invariant
            0 <= i <= ls@.len(),
            lsv == lines_of(prog.spec_bytes()),
            ls@.map_values(|l: Vec<u8>| l@) == lsv,
            lsv.len() <= 0x1FFF_FFFF,
            spec_build(lsv.take(i as int)) == Ok::<
                (Seq<LineV>, Seq<(Seq<u8>, u32)>),
                (int, ParseReason),
            >((lines_view(lines@), labels_view(labels@))),
            pc == 4 * lines@.len(),
            lines@.len() <= i,
            forall|k: int| 0 <= k < lines@.len() ==> (#[trigger] lines@[k]).instr is Some,
            forall|k: int|
                0 <= k < labels@.len() ==> ((#[trigger] labels@[k]).1 as int % 4 == 0
                    && labels@[k].1 <= pc),
        decreases ls@.len() - i,
    {
        proof {
            assert(lsv.take(i + 1).drop_last() =~= lsv.take(i as int));
            assert(lsv.take(i + 1).last() == lsv[i as int]);
            assert(lsv[i as int] == ls@[i as int]@);
        }
        let line = &ls[i];
        match parse_line_bytes(line.as_slice()) {
            Err(e) => {
                proof {
                    assert(spec_build(lsv.take(i + 1)) == Err::<
                        (Seq<LineV>, Seq<(Seq<u8>, u32)>),
                        (int, ParseReason),
                    >((i as int, e)));
                    lemma_build_err_persists(lsv, i + 1);
                }
                return Err(ParseError { line: i, reason: e });
            },
            Ok(None) => {},
            Ok(Some(l)) => {
                let ghost lv = l@;
                let ghost lines0 = lines@;
                let ghost labels0 = labels@;
                let Line { label, instr } = l;
                match &label {
                    Some(name) => {
                        let name2 = copy_bytes(name.as_slice());
                        labels.push((name2, pc));
                        proof {
                            assert(labels_view(labels@) =~= labels_view(labels0).push(
                                (name@, pc),
                            ));
                        }
                    },
                    None => {},
                }
                match instr {
                    Some(ins) => {
                        lines.push(Line { label, instr: Some(ins) });
                        proof {
                            assert(lines@.last()@ == lv);
                            assert(lines_view(lines@) =~= lines_view(lines0).push(lv));
                        }
                        pc = pc + 4;
                    },
                    None => {},
                }
            },
        }
        proof {
            assert(spec_build(lsv.take(i + 1)) == Ok::<
                (Seq<LineV>, Seq<(Seq<u8>, u32)>),
                (int, ParseReason),
            >((lines_view(lines@), labels_view(labels@))));
        }
        i += 1;
    }
    proof {
        assert(lsv.take(i as int) =~= lsv);
    }
    let state = State::new();
    let p = Prog { lines, labels, state };
    proof {
        assert(4 * p.lines@.len() <= 0x7FFF_FFFF);
    }
    Ok(p)
}

} // verus!
