//! A small assembly-language simulator.
//!
//! The crate parses a line-oriented assembly dialect into an ordered
//! instruction list with a resolved label table, and executes the result
//! step by step against a machine state: a program counter, a file of 32
//! unsigned 32-bit registers, and 1024 bytes of byte-addressable memory.
//! Every fault (parse error, unknown label, out-of-range register or
//! address, opcode with no execution rule) is surfaced as a typed error;
//! no verified function here panics.

use vstd::prelude::*;

pub mod exec;
pub mod machine;
pub mod parser;
pub mod text;

pub use crate::exec::run_prog;

verus! {

use crate::machine::{State, spec_dump};
use crate::parser::{Instr, InstrV, Line, LineV, labels_view, lines_view, spec_lookup};
use crate::text::{bytes_eq, dec_repr, push_bytes, push_dec};

/// A parsed program: the ordered instruction lines, the label table
/// (name, byte address; a later binding of a name shadows an earlier one),
/// and the machine state of the current run. The lines and the table do not
/// change after parsing; only the state does.
#[derive(Debug)]
pub struct Prog {
    pub lines: Vec<Line>,
    pub labels: Vec<(Vec<u8>, u32)>,
    pub state: State,
}

impl Prog {
    /// Every stored line carries an instruction (label-only lines bind a
    /// label and are not stored); every label address is a multiple of 4
    /// and at most one past the last instruction; all addresses fit the
    /// signed 32-bit program counter; and the counter itself is the halt
    /// sentinel or a 4-aligned address at most one past the last
    /// instruction.
    pub open spec fn wf(self) -> bool {
        &&& self.state.wf()
        &&& forall|i: int| 0 <= i < self.lines@.len() ==> (#[trigger] self.lines@[i]).instr is Some
        &&& forall|i: int|
            0 <= i < self.labels@.len() ==> ((#[trigger] self.labels@[i]).1 as int % 4 == 0
                && self.labels@[i].1 <= 4 * self.lines@.len())
        &&& 4 * self.lines@.len() <= 0x7FFF_FFFF
        &&& (self.state@.pc == -1 || (0 <= self.state@.pc && self.state@.pc % 4 == 0
            && self.state@.pc <= 4 * self.lines@.len()))
    }

    /// The address bound to `name`, if the name was ever bound; the last
    /// binding wins.
    pub fn resolve(&self, name: &[u8]) -> (r: Option<u32>)
        ensures
            r == spec_lookup(labels_view(self.labels@), name@),
    {
        let ghost lv = labels_view(self.labels@);
        let mut i: usize = self.labels.len();
        proof {
            assert(lv.take(i as int) =~= lv);
        }
        while i > 0
            invariant
                0 <= i <= self.labels@.len(),
                lv == labels_view(self.labels@),
                spec_lookup(lv, name@) == spec_lookup(lv.take(i as int), name@),
            decreases i,
        {
            i = i - 1;
            let entry = &self.labels[i];
            if bytes_eq(entry.0.as_slice(), name) {
                proof {
                    assert(lv.take(i + 1).last() == (entry.0@, entry.1));
                }
                return Some(entry.1);
            }
            proof {
                assert(lv.take(i + 1).last() == (entry.0@, entry.1));
                assert(lv.take(i + 1).drop_last() =~= lv.take(i as int));
            }
        }
        None
    }
}

/// A register operand as text: `r` then the id in decimal.
pub open spec fn spec_reg_name(r: u32) -> Seq<u8> {
    seq![('r' as u8)] + dec_repr(r as nat)
}

/// A separator between rendered operands.
pub open spec fn spec_sep() -> Seq<u8> {
    seq![(',' as u8), (' ' as u8)]
}

/// An instruction as text: the mnemonic, then its operands separated by
/// commas.
pub open spec fn spec_instr_text(iv: InstrV) -> Seq<u8> {
    match iv {
        InstrV::Mov { rd, rs } => seq![('m' as u8), ('o' as u8), ('v' as u8), (' ' as u8)]
            + spec_reg_name(rd) + spec_sep() + spec_reg_name(rs),
        InstrV::Movi { rd, imm } => seq![
            ('m' as u8),
            ('o' as u8),
            ('v' as u8),
            ('i' as u8),
            (' ' as u8),
        ] + spec_reg_name(rd) + spec_sep() + dec_repr(imm as nat),
        InstrV::Add { rd, rs, rt } => seq![('a' as u8), ('d' as u8), ('d' as u8), (' ' as u8)]
            + spec_reg_name(rd) + spec_sep() + spec_reg_name(rs) + spec_sep() + spec_reg_name(rt),
        InstrV::Sub { rd, rs, rt } => seq![('s' as u8), ('u' as u8), ('b' as u8), (' ' as u8)]
            + spec_reg_name(rd) + spec_sep() + spec_reg_name(rs) + spec_sep() + spec_reg_name(rt),
        InstrV::Lw { rt, rs, imm } => seq![('l' as u8), ('w' as u8), (' ' as u8)] + spec_reg_name(
            rt,
        ) + spec_sep() + spec_reg_name(rs) + spec_sep() + dec_repr(imm as nat),
        InstrV::Sw { rt, rs, imm } => seq![('s' as u8), ('w' as u8), (' ' as u8)] + spec_reg_name(
            rt,
        ) + spec_sep() + spec_reg_name(rs) + spec_sep() + dec_repr(imm as nat),
        InstrV::Beq { rs, rt, target } => seq![('b' as u8), ('e' as u8), ('q' as u8), (' ' as u8)]
            + spec_reg_name(rs) + spec_sep() + spec_reg_name(rt) + spec_sep() + target,
        InstrV::Bne { rs, rt, target } => seq![('b' as u8), ('n' as u8), ('e' as u8), (' ' as u8)]
            + spec_reg_name(rs) + spec_sep() + spec_reg_name(rt) + spec_sep() + target,
        InstrV::J { target } => seq![('j' as u8), (' ' as u8)] + target,
        InstrV::Jal { target } => seq![('j' as u8), ('a' as u8), ('l' as u8), (' ' as u8)]
            + target,
        InstrV::Exit => seq![('e' as u8), ('x' as u8), ('i' as u8), ('t' as u8)],
    }
}

/// The instruction lines of a program listing, first `n` records: one line
/// per stored record that carries no label; records that bind a label are
/// left to the label table that follows.
pub open spec fn spec_prog_lines_text(lines: Seq<LineV>, n: int) -> Seq<u8>
    decreases n,
{
    if n <= 0 {
        Seq::empty()
    } else {
        spec_prog_lines_text(lines, n - 1) + (match lines[n - 1] {
            LineV { label: None, instr: Some(iv) } => spec_instr_text(iv) + seq![10u8],
            _ => Seq::empty(),
        })
    }
}

/// The label table as text, first `n` entries: `address: name` per line.
pub open spec fn spec_labels_text(labels: Seq<(Seq<u8>, u32)>, n: int) -> Seq<u8>
    decreases n,
{
    if n <= 0 {
        Seq::empty()
    } else {
        spec_labels_text(labels, n - 1) + dec_repr(labels[n - 1].1 as nat) + seq![
            (':' as u8),
            (' ' as u8),
        ] + labels[n - 1].0 + seq![10u8]
    }
}

/// A whole program listing: the unlabelled instruction lines, the label
/// table, then the state dump.
pub open spec fn spec_dump_prog(
    lines: Seq<LineV>,
    labels: Seq<(Seq<u8>, u32)>,
    s: crate::machine::StateV,
) -> Seq<u8> {
    spec_prog_lines_text(lines, lines.len() as int) + spec_labels_text(
        labels,
        labels.len() as int,
    ) + spec_dump(s)
}

/// Append `r` then the register id in decimal.
fn push_reg(out: &mut Vec<u8>, r: u32)
    ensures
        final(out)@ == old(out)@ + spec_reg_name(r),
{
    out.push('r' as u8);
    push_dec(out, r);
    assert(final(out)@ =~= old(out)@ + spec_reg_name(r));
}

/// Append `, `.
fn push_sep(out: &mut Vec<u8>)
    ensures
        final(out)@ == old(out)@ + spec_sep(),
{
    out.push(',' as u8);
    out.push(' ' as u8);
    assert(final(out)@ =~= old(out)@ + spec_sep());
}

/// Append an instruction as text.
fn push_instr_text(out: &mut Vec<u8>, i: &Instr)
    ensures
        final(out)@ == old(out)@ + spec_instr_text(i@),
{
    match i {
        Instr::Mov { rd, rs } => {
            out.push('m' as u8);
            out.push('o' as u8);
            out.push('v' as u8);
            out.push(' ' as u8);
            push_reg(out, *rd);
            push_sep(out);
            push_reg(out, *rs);
            assert(final(out)@ =~= old(out)@ + spec_instr_text(i@));
        },
        Instr::Movi { rd, imm } => {
            out.push('m' as u8);
            out.push('o' as u8);
            out.push('v' as u8);
            out.push('i' as u8);
            out.push(' ' as u8);
            push_reg(out, *rd);
            push_sep(out);
            push_dec(out, *imm);
            assert(final(out)@ =~= old(out)@ + spec_instr_text(i@));
        },
        Instr::Add { rd, rs, rt } => {
            out.push('a' as u8);
            out.push('d' as u8);
            out.push('d' as u8);
            out.push(' ' as u8);
            push_reg(out, *rd);
            push_sep(out);
            push_reg(out, *rs);
            push_sep(out);
            push_reg(out, *rt);
            assert(final(out)@ =~= old(out)@ + spec_instr_text(i@));
        },
        Instr::Sub { rd, rs, rt } => {
            out.push('s' as u8);
            out.push('u' as u8);
            out.push('b' as u8);
            out.push(' ' as u8);
            push_reg(out, *rd);
            push_sep(out);
            push_reg(out, *rs);
            push_sep(out);
            push_reg(out, *rt);
            assert(final(out)@ =~= old(out)@ + spec_instr_text(i@));
        },
        Instr::Lw { rt, rs, imm } => {
            out.push('l' as u8);
            out.push('w' as u8);
            out.push(' ' as u8);
            push_reg(out, *rt);
            push_sep(out);
            push_reg(out, *rs);
            push_sep(out);
            push_dec(out, *imm);
            assert(final(out)@ =~= old(out)@ + spec_instr_text(i@));
        },
        Instr::Sw { rt, rs, imm } => {
            out.push('s' as u8);
            out.push('w' as u8);
            out.push(' ' as u8);
            push_reg(out, *rt);
            push_sep(out);
            push_reg(out, *rs);
            push_sep(out);
            push_dec(out, *imm);
            assert(final(out)@ =~= old(out)@ + spec_instr_text(i@));
        },
        Instr::Beq { rs, rt, target } => {
            out.push('b' as u8);
            out.push('e' as u8);
            out.push('q' as u8);
            out.push(' ' as u8);
            push_reg(out, *rs);
            push_sep(out);
            push_reg(out, *rt);
            push_sep(out);
            push_bytes(out, target.as_slice());
            assert(final(out)@ =~= old(out)@ + spec_instr_text(i@));
        },
        Instr::Bne { rs, rt, target } => {
            out.push('b' as u8);
            out.push('n' as u8);
            out.push('e' as u8);
            out.push(' ' as u8);
            push_reg(out, *rs);
            push_sep(out);
            push_reg(out, *rt);
            push_sep(out);
            push_bytes(out, target.as_slice());
            assert(final(out)@ =~= old(out)@ + spec_instr_text(i@));
        },
        Instr::J { target } => {
            out.push('j' as u8);
            out.push(' ' as u8);
            push_bytes(out, target.as_slice());
            assert(final(out)@ =~= old(out)@ + spec_instr_text(i@));
        },
        Instr::Jal { target } => {
            out.push('j' as u8);
            out.push('a' as u8);
            out.push('l' as u8);
            out.push(' ' as u8);
            push_bytes(out, target.as_slice());
            assert(final(out)@ =~= old(out)@ + spec_instr_text(i@));
        },
        Instr::Exit => {
            out.push('e' as u8);
            out.push('x' as u8);
            out.push('i' as u8);
            out.push('t' as u8);
            assert(final(out)@ =~= old(out)@ + spec_instr_text(i@));
        },
    }
}

/// Render a program listing: the unlabelled instruction records, then the
/// label table (`address: name`), then the state dump.
pub fn dump_prog(p: &Prog) -> (r: Vec<u8>)
    requires
        p.wf(),
    ensures
        r@ == spec_dump_prog(lines_view(p.lines@), labels_view(p.labels@), p.state@),
{
    let ghost glines = lines_view(p.lines@);
    let ghost glabels = labels_view(p.labels@);
    let mut out: Vec<u8> = Vec::new();
    let mut i: usize = 0;
    while i < p.lines.len()
        invariant
            glines == lines_view(p.lines@),
            0 <= i <= p.lines@.len(),
            out@ == spec_prog_lines_text(glines, i as int),
        decreases p.lines@.len() - i,
    {
        proof {
            assert(glines[i as int] == p.lines@[i as int]@);
        }
        let line = &p.lines[i];
        match (&line.label, &line.instr) {
            (None, Some(ins)) => {
                push_instr_text(&mut out, ins);
                out.push(10);
                proof {
                    assert(out@ =~= spec_prog_lines_text(glines, i + 1));
                }
            },
            _ => {
                proof {
                    assert(out@ =~= spec_prog_lines_text(glines, i + 1));
                }
            },
        }
        i += 1;
    }
    let ghost lines_text = out@;
    let mut k: usize = 0;
    while k < p.labels.len()
        invariant
            glines == lines_view(p.lines@),
            glabels == labels_view(p.labels@),
            0 <= k <= p.labels@.len(),
            lines_text == spec_prog_lines_text(glines, glines.len() as int),
            out@ == lines_text + spec_labels_text(glabels, k as int),
        decreases p.labels@.len() - k,
    {
        proof {
            assert(glabels[k as int] == (p.labels@[k as int].0@, p.labels@[k as int].1));
        }
        let entry = &p.labels[k];
        push_dec(&mut out, entry.1);
        out.push(':' as u8);
        out.push(' ' as u8);
        push_bytes(&mut out, entry.0.as_slice());
        out.push(10);
        proof {
            assert(out@ =~= lines_text + spec_labels_text(glabels, k + 1));
        }
        k += 1;
    }
    let tail = p.state.dump();
    push_bytes(&mut out, tail.as_slice());
    proof {
        assert(out@ =~= spec_dump_prog(glines, glabels, p.state@));
    }
    out
}

} // verus!
