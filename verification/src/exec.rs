//! The executor: the fetch-decode-execute step and the driver loop.
//!
//! One step reads the instruction under the program counter, advances the
//! counter by 4, and applies the opcode's effect; control transfers
//! overwrite the advanced counter. Every fault leaves the machine state
//! exactly as it was and aborts the run.

use vstd::prelude::*;
use crate::machine::{Fault, FaultV, StateV, init_state, MEM_SIZE, REG_COUNT};
use crate::parser::{
    Instr, InstrV, LineV, ParseError, ParseReason, labels_view, lines_view, spec_build,
    spec_lookup, parse_prog,
};
use crate::text::{copy_bytes, lines_of};
use crate::Prog;
use vstd::string::StringSliceAdditionalSpecFns;

verus! {

/// What one step did.
#[derive(Clone, Copy, PartialEq, Eq, Structural, Debug)]
pub enum StepEvent {
    /// An instruction was executed.
    Ran,
    /// The counter ran past the last instruction; the machine halted.
    RanOffEnd,
    /// An `exit` was executed; the machine halted.
    Exited,
    /// The machine was already halted; nothing happened.
    AlreadyHalted,
}

/// The meaning of one step: the machine state after it and what it did.
/// A fault leaves the state unchanged.
pub open spec fn step_spec(
    lines: Seq<LineV>,
    labels: Seq<(Seq<u8>, u32)>,
    s: StateV,
) -> (StateV, Result<StepEvent, FaultV>) {
    if s.pc < 0 {
        (s, Ok(StepEvent::AlreadyHalted))
    } else if s.pc / 4 >= lines.len() {
        (StateV { pc: -1, ..s }, Ok(StepEvent::RanOffEnd))
    } else {
        let idx = s.pc / 4;
        match lines[idx].instr {
            None => (s, Err(FaultV::UnimplementedOpcode { opcode: Seq::empty() })),
            Some(iv) => match iv {
                InstrV::Mov { rd, rs } => {
                    if rs >= REG_COUNT {
                        (s, Err(FaultV::RegisterOutOfRange { id: rs }))
                    } else if rd >= REG_COUNT {
                        (s, Err(FaultV::RegisterOutOfRange { id: rd }))
                    } else {
                        (
                            StateV {
                                pc: s.pc + 4,
                                regs: s.regs.update(rd as int, s.regs[rs as int]),
                                ..s
                            },
                            Ok(StepEvent::Ran),
                        )
                    }
                },
                InstrV::Movi { rd, imm } => {
                    if rd >= REG_COUNT {
                        (s, Err(FaultV::RegisterOutOfRange { id: rd }))
                    } else {
                        (
                            StateV { pc: s.pc + 4, regs: s.regs.update(rd as int, imm), ..s },
                            Ok(StepEvent::Ran),
                        )
                    }
                },
                InstrV::Add { rd, rs, rt } => {
                    if rs >= REG_COUNT {
                        (s, Err(FaultV::RegisterOutOfRange { id: rs }))
                    } else if rt >= REG_COUNT {
                        (s, Err(FaultV::RegisterOutOfRange { id: rt }))
                    } else if rd >= REG_COUNT {
                        (s, Err(FaultV::RegisterOutOfRange { id: rd }))
                    } else {
                        let sum = ((s.regs[rs as int] + s.regs[rt as int]) % 0x1_0000_0000) as u32;
                        (
                            StateV { pc: s.pc + 4, regs: s.regs.update(rd as int, sum), ..s },
                            Ok(StepEvent::Ran),
                        )
                    }
                },
                InstrV::Lw { rt, rs, imm } => {
                    if rs >= REG_COUNT {
                        (s, Err(FaultV::RegisterOutOfRange { id: rs }))
                    } else {
                        let addr = (s.regs[rs as int] + imm) % 0x1_0000_0000;
                        if addr >= MEM_SIZE {
                            (s, Err(FaultV::MemoryFault { address: addr as u32 }))
                        } else if rt >= REG_COUNT {
                            (s, Err(FaultV::RegisterOutOfRange { id: rt }))
                        } else {
                            (
                                StateV {
                                    pc: s.pc + 4,
                                    regs: s.regs.update(rt as int, s.mem[addr] as u32),
                                    ..s
                                },
                                Ok(StepEvent::Ran),
                            )
                        }
                    }
                },
                InstrV::Sw { rt, rs, imm } => {
                    if rs >= REG_COUNT {
                        (s, Err(FaultV::RegisterOutOfRange { id: rs }))
                    } else {
                        let addr = (s.regs[rs as int] + imm) % 0x1_0000_0000;
                        if rt >= REG_COUNT {
                            (s, Err(FaultV::RegisterOutOfRange { id: rt }))
                        } else if addr >= MEM_SIZE {
                            (s, Err(FaultV::MemoryFault { address: addr as u32 }))
                        } else {
                            (
                                StateV {
                                    pc: s.pc + 4,
                                    mem: s.mem.update(addr, (s.regs[rt as int] % 256) as u8),
                                    ..s
                                },
                                Ok(StepEvent::Ran),
                            )
                        }
                    }
                },
                InstrV::J { target } => {
                    match spec_lookup(labels, target) {
                        None => (s, Err(FaultV::UnknownLabel { name: target })),
                        Some(a) => (StateV { pc: a as int, ..s }, Ok(StepEvent::Ran)),
                    }
                },
                InstrV::Exit => (StateV { pc: -1, ..s }, Ok(StepEvent::Exited)),
                InstrV::Sub { .. } => (
                    s,
                    Err(FaultV::UnimplementedOpcode {
                        opcode: seq![('s' as u8), ('u' as u8), ('b' as u8)],
                    }),
                ),
                InstrV::Beq { .. } => (
                    s,
                    Err(FaultV::UnimplementedOpcode {
                        opcode: seq![('b' as u8), ('e' as u8), ('q' as u8)],
                    }),
                ),
                InstrV::Bne { .. } => (
                    s,
                    Err(FaultV::UnimplementedOpcode {
                        opcode: seq![('b' as u8), ('n' as u8), ('e' as u8)],
                    }),
                ),
                InstrV::Jal { .. } => (
                    s,
                    Err(FaultV::UnimplementedOpcode {
                        opcode: seq![('j' as u8), ('a' as u8), ('l' as u8)],
                    }),
                ),
            },
        }
    }
}

/// A resolved address is one of the table's addresses.
proof fn lemma_lookup_in_table(labels: Seq<(Seq<u8>, u32)>, name: Seq<u8>, a: u32)
    requires
        spec_lookup(labels, name) == Some(a),
    ensures
        exists|i: int| 0 <= i < labels.len() && (#[trigger] labels[i]).1 == a,
    decreases labels.len(),
{
    if labels.len() > 0 {
        if labels.last().0 == name {
            assert(labels[labels.len() - 1].1 == a);
        } else {
            lemma_lookup_in_table(labels.drop_last(), name, a);
            let i = choose|i: int|
                0 <= i < labels.drop_last().len() && (#[trigger] labels.drop_last()[i]).1 == a;
            assert(labels[i].1 == a);
        }
    }
}

/// The view of a step result.
pub open spec fn res_view(r: Result<StepEvent, Fault>) -> Result<StepEvent, FaultV> {
    match r {
        Ok(e) => Ok(e),
        Err(f) => Err(f@),
    }
}

/// Execute one step: fetch the instruction under the program counter and
/// apply it, exactly as `step_spec` says. The instruction list and the
/// label table never change; a fault leaves the whole state as it was.
pub fn do_line(p: &mut Prog) -> (r: Result<StepEvent, Fault>)
    requires
        old(p).wf(),
    ensures
        final(p).wf(),
        final(p).lines@ == old(p).lines@,
        final(p).labels@ == old(p).labels@,
        ({
            let (s2, rv) = step_spec(
                lines_view(old(p).lines@),
                labels_view(old(p).labels@),
                old(p).state@,
            );
            final(p).state@ == s2 && res_view(r) == rv
        }),
{
    let pc = p.state.pc();
    if pc < 0 {
        return Ok(StepEvent::AlreadyHalted);
    }
    let idx = ((pc as u32) / 4) as usize;
    if idx >= p.lines.len() {
        p.state.set_pc(-1);
        return Ok(StepEvent::RanOffEnd);
    }
    proof {
        assert(lines_view(p.lines@)[idx as int] == p.lines@[idx as int]@);
    }
    match &p.lines[idx].instr {
        None => {
            proof {
                assert(false);
            }
            Ok(StepEvent::Ran)
        },
        Some(Instr::Mov { rd, rs }) => {
            let (rd, rs) = (*rd, *rs);
            let v = match p.state.read_reg(rs) {
                Ok(v) => v,
                Err(f) => {
                    return Err(f);
                },
            };
            match p.state.set_reg(rd, v) {
                Ok(()) => {},
                Err(f) => {
                    return Err(f);
                },
            }
            p.state.set_pc(pc + 4);
            Ok(StepEvent::Ran)
        },
        Some(Instr::Movi { rd, imm }) => {
            let (rd, imm) = (*rd, *imm);
            match p.state.set_reg(rd, imm) {
                Ok(()) => {},
                Err(f) => {
                    return Err(f);
                },
            }
            p.state.set_pc(pc + 4);
            Ok(StepEvent::Ran)
        },
        Some(Instr::Add { rd, rs, rt }) => {
            let (rd, rs, rt) = (*rd, *rs, *rt);
            let a = match p.state.read_reg(rs) {
                Ok(v) => v,
                Err(f) => {
                    return Err(f);
                },
            };
            let b = match p.state.read_reg(rt) {
                Ok(v) => v,
                Err(f) => {
                    return Err(f);
                },
            };
            let sum = (((a as u64) + (b as u64)) % 0x1_0000_0000) as u32;
            match p.state.set_reg(rd, sum) {
                Ok(()) => {},
                Err(f) => {
                    return Err(f);
                },
            }
            p.state.set_pc(pc + 4);
            Ok(StepEvent::Ran)
        },
        Some(Instr::Lw { rt, rs, imm }) => {
            let (rt, rs, imm) = (*rt, *rs, *imm);
            let base = match p.state.read_reg(rs) {
                Ok(v) => v,
                Err(f) => {
                    return Err(f);
                },
            };
            let addr = (((base as u64) + (imm as u64)) % 0x1_0000_0000) as u32;
            let byte = match p.state.read_mem(addr) {
                Ok(v) => v,
                Err(f) => {
                    return Err(f);
                },
            };
            match p.state.set_reg(rt, byte as u32) {
                Ok(()) => {},
                Err(f) => {
                    return Err(f);
                },
            }
            p.state.set_pc(pc + 4);
            Ok(StepEvent::Ran)
        },
        Some(Instr::Sw { rt, rs, imm }) => {
            let (rt, rs, imm) = (*rt, *rs, *imm);
            let base = match p.state.read_reg(rs) {
                Ok(v) => v,
                Err(f) => {
                    return Err(f);
                },
            };
            let addr = (((base as u64) + (imm as u64)) % 0x1_0000_0000) as u32;
            let val = match p.state.read_reg(rt) {
                Ok(v) => v,
                Err(f) => {
                    return Err(f);
                },
            };
            match p.state.write_mem(addr, (val % 256) as u8) {
                Ok(()) => {},
                Err(f) => {
                    return Err(f);
                },
            }
            p.state.set_pc(pc + 4);
            Ok(StepEvent::Ran)
        },
        Some(Instr::J { target }) => {
            match p.resolve(target.as_slice()) {
                None => Err(Fault::UnknownLabel { name: copy_bytes(target.as_slice()) }),
                Some(a) => {
                    proof {
                        let lv = labels_view(p.labels@);
                        lemma_lookup_in_table(lv, target@, a);
                        let i = choose|i: int| 0 <= i < lv.len() && (#[trigger] lv[i]).1 == a;
                        assert(lv[i] == (p.labels@[i].0@, p.labels@[i].1));
                        assert(p.labels@[i].1 as int % 4 == 0 && p.labels@[i].1 <= 4
                            * p.lines@.len());
                    }
                    p.state.set_pc(a as i32);
                    Ok(StepEvent::Ran)
                },
            }
        },
        Some(Instr::Exit) => {
            p.state.set_pc(-1);
            Ok(StepEvent::Exited)
        },
        Some(Instr::Sub { .. }) => {
            let mut op: Vec<u8> = Vec::new();
            op.push('s' as u8);
            op.push('u' as u8);
            op.push('b' as u8);
            proof {
                assert(op@ =~= seq![('s' as u8), ('u' as u8), ('b' as u8)]);
            }
            Err(Fault::UnimplementedOpcode { opcode: op })
        },
        Some(Instr::Beq { .. }) => {
            let mut op: Vec<u8> = Vec::new();
            op.push('b' as u8);
            op.push('e' as u8);
            op.push('q' as u8);
            proof {
                assert(op@ =~= seq![('b' as u8), ('e' as u8), ('q' as u8)]);
            }
            Err(Fault::UnimplementedOpcode { opcode: op })
        },
        Some(Instr::Bne { .. }) => {
            let mut op: Vec<u8> = Vec::new();
            op.push('b' as u8);
            op.push('n' as u8);
            op.push('e' as u8);
            proof {
                assert(op@ =~= seq![('b' as u8), ('n' as u8), ('e' as u8)]);
            }
            Err(Fault::UnimplementedOpcode { opcode: op })
        },
        Some(Instr::Jal { .. }) => {
            let mut op: Vec<u8> = Vec::new();
            op.push('j' as u8);
            op.push('a' as u8);
            op.push('l' as u8);
            proof {
                assert(op@ =~= seq![('j' as u8), ('a' as u8), ('l' as u8)]);
            }
            Err(Fault::UnimplementedOpcode { opcode: op })
        },
    }
}

/// Law: from a running state, one step sets the halt sentinel exactly when
/// it executed `exit` or when the execution index ran past the instruction
/// count; no other step — not even a fault — leaves a negative counter.
pub proof fn lemma_halt_iff(lines: Seq<LineV>, labels: Seq<(Seq<u8>, u32)>, s: StateV)
    requires
        s.pc >= 0,
    ensures
        ({
            let (s2, r) = step_spec(lines, labels, s);
            (s2.pc < 0) <==> (r == Ok::<StepEvent, FaultV>(StepEvent::Exited) || r == Ok::<
                StepEvent,
                FaultV,
            >(StepEvent::RanOffEnd))
        }),
{
}

/// Law: `add` wraps modulo 2^32 and raises no flag: the destination gets
/// the sum of the sources reduced mod 2^32, whatever the operands.
pub proof fn lemma_add_wraps(
    lines: Seq<LineV>,
    labels: Seq<(Seq<u8>, u32)>,
    s: StateV,
    rd: u32,
    rs: u32,
    rt: u32,
)
    requires
        s.pc >= 0,
        s.pc / 4 < lines.len(),
        lines[s.pc / 4].instr == Some(InstrV::Add { rd, rs, rt }),
        rd < REG_COUNT,
        rs < REG_COUNT,
        rt < REG_COUNT,
    ensures
        ({
            let (s2, r) = step_spec(lines, labels, s);
            r == Ok::<StepEvent, FaultV>(StepEvent::Ran) && s2.regs == s.regs.update(
                rd as int,
                ((s.regs[rs as int] + s.regs[rt as int]) % 0x1_0000_0000) as u32,
            )
        }),
{
}

/// Law: `sw` stores only the low byte and `lw` loads one zero-extended
/// byte, so a store at an address followed by a load from the same address
/// hands back the stored register reduced mod 256 — never the full word.
pub proof fn lemma_store_load_byte(
    lines: Seq<LineV>,
    labels: Seq<(Seq<u8>, u32)>,
    s: StateV,
    rt: u32,
    rs: u32,
    imm: u32,
    rt2: u32,
    rs2: u32,
    imm2: u32,
)
    requires
        s.regs.len() == REG_COUNT,
        s.mem.len() == MEM_SIZE,
        s.pc >= 0,
        s.pc / 4 + 1 < lines.len(),
        lines[s.pc / 4].instr == Some(InstrV::Sw { rt, rs, imm }),
        lines[s.pc / 4 + 1].instr == Some(InstrV::Lw { rt: rt2, rs: rs2, imm: imm2 }),
        rt < REG_COUNT,
        rs < REG_COUNT,
        rt2 < REG_COUNT,
        rs2 < REG_COUNT,
        (s.regs[rs as int] + imm) % 0x1_0000_0000 < MEM_SIZE,
        (s.regs[rs2 as int] + imm2) % 0x1_0000_0000 == (s.regs[rs as int] + imm) % 0x1_0000_0000,
    ensures
        ({
            let (s1, r1) = step_spec(lines, labels, s);
            let (s2, r2) = step_spec(lines, labels, s1);
            r1 == Ok::<StepEvent, FaultV>(StepEvent::Ran) && r2 == Ok::<StepEvent, FaultV>(
                StepEvent::Ran,
            ) && s2.regs[rt2 as int] == s.regs[rt as int] % 256
        }),
{
    let (s1, r1) = step_spec(lines, labels, s);
    assert(s1.pc / 4 == s.pc / 4 + 1);
}

/// Law: an opcode the grammar accepts but the engine does not implement —
/// `sub`, `beq`, `bne`, `jal` — always aborts the step with an
/// unimplemented-opcode fault and changes nothing; it never silently
/// does nothing and moves on.
pub proof fn lemma_unimplemented_faults(lines: Seq<LineV>, labels: Seq<(Seq<u8>, u32)>, s: StateV)
    requires
        s.pc >= 0,
        s.pc / 4 < lines.len(),
        lines[s.pc / 4].instr matches Some(iv) && (iv is Sub || iv is Beq || iv is Bne
            || iv is Jal),
    ensures
        ({
            let (s2, r) = step_spec(lines, labels, s);
            s2 == s && r is Err && r->Err_0 is UnimplementedOpcode
        }),
{
}

/// Law: a register operand of 32 or more, or an effective memory address
/// of 1024 or more, always aborts the step with the matching range fault
/// and leaves the state unchanged — register ids and addresses never wrap
/// into range or alias another cell.
pub proof fn lemma_range_faults(lines: Seq<LineV>, labels: Seq<(Seq<u8>, u32)>, s: StateV)
    requires
        s.pc >= 0,
        s.pc / 4 < lines.len(),
    ensures
        ({
            let (s2, r) = step_spec(lines, labels, s);
            match lines[s.pc / 4].instr {
                Some(InstrV::Mov { rd, rs }) => (rd >= REG_COUNT || rs >= REG_COUNT) ==> (s2 == s
                    && r is Err && r->Err_0 is RegisterOutOfRange),
                Some(InstrV::Movi { rd, .. }) => rd >= REG_COUNT ==> (s2 == s && r is Err
                    && r->Err_0 is RegisterOutOfRange),
                Some(InstrV::Add { rd, rs, rt }) => (rd >= REG_COUNT || rs >= REG_COUNT || rt
                    >= REG_COUNT) ==> (s2 == s && r is Err && r->Err_0 is RegisterOutOfRange),
                Some(InstrV::Lw { rt, rs, imm }) => {
                    &&& ((rt >= REG_COUNT || rs >= REG_COUNT) ==> (s2 == s && r is Err
                        && (r->Err_0 is RegisterOutOfRange || r->Err_0 is MemoryFault)))
                    &&& ((rt < REG_COUNT && rs < REG_COUNT && (s.regs[rs as int] + imm)
                        % 0x1_0000_0000 >= MEM_SIZE) ==> (s2 == s && r == Err::<
                        StepEvent,
                        FaultV,
                    >(FaultV::MemoryFault {
                        address: (((s.regs[rs as int] + imm) % 0x1_0000_0000) as u32),
                    })))
                },
                Some(InstrV::Sw { rt, rs, imm }) => {
                    &&& ((rt >= REG_COUNT || rs >= REG_COUNT) ==> (s2 == s && r is Err
                        && r->Err_0 is RegisterOutOfRange))
                    &&& ((rt < REG_COUNT && rs < REG_COUNT && (s.regs[rs as int] + imm)
                        % 0x1_0000_0000 >= MEM_SIZE) ==> (s2 == s && r == Err::<
                        StepEvent,
                        FaultV,
                    >(FaultV::MemoryFault {
                        address: (((s.regs[rs as int] + imm) % 0x1_0000_0000) as u32),
                    })))
                },
                _ => true,
            }
        }),
{
}

/// How a budgeted run ended.
#[derive(Clone, Copy, PartialEq, Eq, Structural, Debug)]
pub enum Outcome {
    /// The machine reached the halt sentinel.
    Halted,
    /// The step budget ran out with the machine still running.
    OutOfSteps,
}

/// Why a run failed.
#[derive(Debug)]
pub enum RunError {
    /// The source did not parse.
    Parse(ParseError),
    /// A step faulted.
    Fault(Fault),
}

/// The mathematical value of a `RunError`.
pub enum RunErrorV {
    Parse(ParseError),
    Fault(FaultV),
}

impl View for RunError {
    type V = RunErrorV;

    open spec fn view(&self) -> RunErrorV {
        match self {
            RunError::Parse(e) => RunErrorV::Parse(*e),
            RunError::Fault(f) => RunErrorV::Fault(f@),
        }
    }
}

/// The meaning of running at most `fuel` steps from `s`: the final state,
/// and how the run ended.
pub open spec fn run_spec(
    lines: Seq<LineV>,
    labels: Seq<(Seq<u8>, u32)>,
    s: StateV,
    fuel: nat,
) -> (StateV, Result<Outcome, FaultV>)
    decreases fuel,
{
    if s.pc < 0 {
        (s, Ok(Outcome::Halted))
    } else if fuel == 0 {
        (s, Ok(Outcome::OutOfSteps))
    } else {
        let (s2, r) = step_spec(lines, labels, s);
        match r {
            Err(f) => (s2, Err(f)),
            Ok(_) => run_spec(lines, labels, s2, (fuel - 1) as nat),
        }
    }
}

/// Parse a source text and run it from a fresh state, at most `max_steps`
/// steps. The budget is the host's guard against programs that never halt.
pub fn run_prog(prog: &str, max_steps: u64) -> (r: Result<(Prog, Outcome), RunError>)
    requires
        prog.spec_bytes().len() <= 0x1FFF_FFFF,
    ensures
        (match r {
            Ok((p, outcome)) => {
                &&& spec_build(lines_of(prog.spec_bytes())) == Ok::<
                    (Seq<LineV>, Seq<(Seq<u8>, u32)>),
                    (int, ParseReason),
                >((lines_view(p.lines@), labels_view(p.labels@)))
                &&& p.wf()
                &&& run_spec(
                    lines_view(p.lines@),
                    labels_view(p.labels@),
                    init_state(),
                    max_steps as nat,
                ) == (p.state@, Ok::<Outcome, FaultV>(outcome))
            },
            Err(e) => match e@ {
                RunErrorV::Parse(pe) => spec_build(lines_of(prog.spec_bytes())) == Err::<
                    (Seq<LineV>, Seq<(Seq<u8>, u32)>),
                    (int, ParseReason),
                >((pe.line as int, pe.reason)),
                RunErrorV::Fault(fv) => {
                    &&& spec_build(lines_of(prog.spec_bytes())) is Ok
                    &&& run_spec(
                        spec_build(lines_of(prog.spec_bytes()))->Ok_0.0,
                        spec_build(lines_of(prog.spec_bytes()))->Ok_0.1,
                        init_state(),
                        max_steps as nat,
                    ).1 == Err::<Outcome, FaultV>(fv)
                },
            },
        }),
{
    let mut p = match parse_prog(prog) {
        Ok(p) => p,
        Err(e) => {
            return Err(RunError::Parse(e));
        },
    };
    let ghost glines = lines_view(p.lines@);
    let ghost glabels = labels_view(p.labels@);
    let mut steps: u64 = 0;
    while steps < max_steps
        invariant
            p.wf(),
            lines_view(p.lines@) == glines,
            labels_view(p.labels@) == glabels,
            spec_build(lines_of(prog.spec_bytes())) == Ok::<
                (Seq<LineV>, Seq<(Seq<u8>, u32)>),
                (int, ParseReason),
            >((glines, glabels)),
            0 <= steps <= max_steps,
            run_spec(glines, glabels, init_state(), max_steps as nat) == run_spec(
                glines,
                glabels,
                p.state@,
                (max_steps - steps) as nat,
            ),
        decreases max_steps - steps,
    {
        if p.state.pc() < 0 {
            return Ok((p, Outcome::Halted));
        }
        match do_line(&mut p) {
            Ok(_) => {},
            Err(f) => {
                return Err(RunError::Fault(f));
            },
        }
        steps = steps + 1;
    }
    if p.state.pc() < 0 {
        Ok((p, Outcome::Halted))
    } else {
        Ok((p, Outcome::OutOfSteps))
    }
}

} // verus!

