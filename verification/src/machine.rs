//! Machine state: program counter, register file and byte memory, with the
//! faults that abort a run.

use vstd::prelude::*;
use crate::text::{dec_repr, hex_repr, push_dec, push_hex};

verus! {

/// Number of general-purpose registers in the register file.
pub const REG_COUNT: u32 = 32;

/// Size of the byte-addressable memory, in bytes.
pub const MEM_SIZE: u32 = 1024;

/// A runtime fault. Every fault is fatal to the run: the executor stops and
/// the caller decides what to do with the report.
#[derive(Debug)]
pub enum Fault {
    /// A jump or branch names a label that was never bound during parsing.
    UnknownLabel { name: Vec<u8> },
    /// A register operand names a register id outside `[0, REG_COUNT)`.
    RegisterOutOfRange { id: u32 },
    /// A load or store addresses a byte outside `[0, MEM_SIZE)`.
    MemoryFault { address: u32 },
    /// The opcode is accepted by the grammar but has no execution rule.
    UnimplementedOpcode { opcode: Vec<u8> },
}

/// The mathematical value of a `Fault`.
pub enum FaultV {
    UnknownLabel { name: Seq<u8> },
    RegisterOutOfRange { id: u32 },
    MemoryFault { address: u32 },
    UnimplementedOpcode { opcode: Seq<u8> },
}

impl View for Fault {
    type V = FaultV;

    open spec fn view(&self) -> FaultV {
        match self {
            Fault::UnknownLabel { name } => FaultV::UnknownLabel { name: name@ },
            Fault::RegisterOutOfRange { id } => FaultV::RegisterOutOfRange { id: *id },
            Fault::MemoryFault { address } => FaultV::MemoryFault { address: *address },
            Fault::UnimplementedOpcode { opcode } => (FaultV::UnimplementedOpcode {
                opcode: opcode@,
            }),
        }
    }
}

/// The mathematical value of a `State`.
pub struct StateV {
    pub pc: int,
    pub regs: Seq<u32>,
    pub mem: Seq<u8>,
}

/// The program counter as decimal text, with a minus sign when halted.
pub open spec fn spec_pc_text(pc: int) -> Seq<u8> {
    if pc < 0 {
        seq![('-' as u8)] + dec_repr((-pc) as nat)
    } else {
        dec_repr(pc as nat)
    }
}

/// One register line of a state dump: tab, `rN = 0x`, the value in upper
/// case hexadecimal, newline.
pub open spec fn spec_reg_line(i: nat, v: u32) -> Seq<u8> {
    seq![9u8, ('r' as u8)] + dec_repr(i) + seq![
        (' ' as u8),
        ('=' as u8),
        (' ' as u8),
        ('0' as u8),
        ('x' as u8),
    ] + hex_repr(v as nat) + seq![10u8]
}

/// The first `n` register lines of a state dump.
pub open spec fn spec_regs_text(regs: Seq<u32>, n: int) -> Seq<u8>
    decreases n,
{
    if n <= 0 {
        Seq::empty()
    } else {
        spec_regs_text(regs, n - 1) + spec_reg_line((n - 1) as nat, regs[n - 1])
    }
}

/// A whole state dump: `pc: N`, then one line per register.
pub open spec fn spec_dump(s: StateV) -> Seq<u8> {
    seq![('p' as u8), ('c' as u8), (':' as u8), (' ' as u8)] + spec_pc_text(s.pc) + seq![10u8]
        + spec_regs_text(s.regs, s.regs.len() as int)
}

/// The state a run starts from: `pc` 0, registers and memory zeroed.
pub open spec fn init_state() -> StateV {
    StateV {
        pc: 0,
        regs: Seq::new(REG_COUNT as nat, |i: int| 0u32),
        mem: Seq::new(MEM_SIZE as nat, |i: int| 0u8),
    }
}

/// The mutable runtime data of one run: a signed program counter (a byte
/// address in steps of 4; any negative value is the halt sentinel), the
/// register file and the memory. Registers and memory start zeroed.
#[derive(Debug)]
pub struct State {
    pc: i32,
    regs: Vec<u32>,
    mem: Vec<u8>,
}

impl View for State {
    type V = StateV;

    closed spec fn view(&self) -> StateV {
        StateV { pc: self.pc as int, regs: self.regs@, mem: self.mem@ }
    }
}

impl State {
    /// The register file and memory have their fixed sizes.
    pub open spec fn wf(self) -> bool {
        &&& self@.regs.len() == REG_COUNT
        &&& self@.mem.len() == MEM_SIZE
    }

    /// A fresh state: `pc` 0, all registers and memory bytes 0.
    pub fn new() -> (s: State)
        ensures
            s.wf(),
            s@ == init_state(),
    {
        let mut regs: Vec<u32> = Vec::new();
        while regs.len() < REG_COUNT as usize
            invariant
                regs@.len() <= REG_COUNT,
                forall|i: int| 0 <= i < regs@.len() ==> regs@[i] == 0,
            decreases REG_COUNT - regs@.len(),
        {
            regs.push(0);
        }
        let mut mem: Vec<u8> = Vec::new();
        while mem.len() < MEM_SIZE as usize
            invariant
                mem@.len() <= MEM_SIZE,
                forall|i: int| 0 <= i < mem@.len() ==> mem@[i] == 0,
            decreases MEM_SIZE - mem@.len(),
        {
            mem.push(0);
        }
        let s = State { pc: 0, regs, mem };
        proof {
            assert(s@.regs =~= init_state().regs);
            assert(s@.mem =~= init_state().mem);
        }
        s
    }

    /// The current program counter. Negative means halted.
    pub fn pc(&self) -> (r: i32)
        ensures
            r as int == self@.pc,
    {
        self.pc
    }

    /// Set the program counter.
    pub fn set_pc(&mut self, pc: i32)
        ensures
            final(self)@.pc == pc as int,
            final(self)@.regs == old(self)@.regs,
            final(self)@.mem == old(self)@.mem,
            final(self).wf() == old(self).wf(),
    {
        self.pc = pc;
    }

    /// Read register `reg`, or fault if the id is out of range.
    pub fn read_reg(&self, reg: u32) -> (r: Result<u32, Fault>)
        requires
            self.wf(),
        ensures
            (match r {
                Ok(v) => reg < REG_COUNT && v == self@.regs[reg as int],
                Err(f) => reg >= REG_COUNT && f@ == (FaultV::RegisterOutOfRange { id: reg }),
            }),
    {
        if reg < REG_COUNT {
            Ok(self.regs[reg as usize])
        } else {
            Err(Fault::RegisterOutOfRange { id: reg })
        }
    }

    /// Write `val` to register `reg`, or fault if the id is out of range.
    /// On a fault the state is unchanged.
    pub fn set_reg(&mut self, reg: u32, val: u32) -> (r: Result<(), Fault>)
        requires
            old(self).wf(),
        ensures
            final(self).wf(),
            final(self)@.pc == old(self)@.pc,
            final(self)@.mem == old(self)@.mem,
            (match r {
                Ok(()) => {
                    &&& reg < REG_COUNT
                    &&& final(self)@.regs == old(self)@.regs.update(reg as int, val)
                },
                Err(f) => {
                    &&& reg >= REG_COUNT
                    &&& f@ == (FaultV::RegisterOutOfRange { id: reg })
                    &&& final(self)@.regs == old(self)@.regs
                },
            }),
    {
        if reg < REG_COUNT {
            self.regs[reg as usize] = val;
            Ok(())
        } else {
            Err(Fault::RegisterOutOfRange { id: reg })
        }
    }

    /// Read the byte at `addr`, or fault if the address is out of range.
    pub fn read_mem(&self, addr: u32) -> (r: Result<u8, Fault>)
        requires
            self.wf(),
        ensures
            (match r {
                Ok(v) => addr < MEM_SIZE && v == self@.mem[addr as int],
                Err(f) => addr >= MEM_SIZE && f@ == (FaultV::MemoryFault { address: addr }),
            }),
    {
        if addr < MEM_SIZE {
            Ok(self.mem[addr as usize])
        } else {
            Err(Fault::MemoryFault { address: addr })
        }
    }

    /// Render the state as text: the program counter in decimal, then one
    /// line per register with its value in upper-case hexadecimal.
    pub fn dump(&self) -> (r: Vec<u8>)
        requires
            self.wf(),
        ensures
            r@ == spec_dump(self@),
    {
        let mut out: Vec<u8> = Vec::new();
        out.push('p' as u8);
        out.push('c' as u8);
        out.push(':' as u8);
        out.push(' ' as u8);
        let pc = self.pc;
        if pc < 0 {
            out.push('-' as u8);
            let mag = (-(pc as i64)) as u32;
            push_dec(&mut out, mag);
        } else {
            push_dec(&mut out, pc as u32);
        }
        out.push(10);
        proof {
            assert(out@ =~= seq![('p' as u8), ('c' as u8), (':' as u8), (' ' as u8)]
                + spec_pc_text(self@.pc) + seq![10u8]);
        }
        let ghost header = out@;
        let mut i: usize = 0;
        while i < self.regs.len()
            invariant
                self.wf(),
                0 <= i <= self@.regs.len(),
                header == seq![('p' as u8), ('c' as u8), (':' as u8), (' ' as u8)]
                    + spec_pc_text(self@.pc) + seq![10u8],
                out@ == header + spec_regs_text(self@.regs, i as int),
            decreases self@.regs.len() - i,
        {
            out.push(9);
            out.push('r' as u8);
            push_dec(&mut out, i as u32);
            out.push(' ' as u8);
            out.push('=' as u8);
            out.push(' ' as u8);
            out.push('0' as u8);
            out.push('x' as u8);
            push_hex(&mut out, self.regs[i]);
            out.push(10);
            proof {
                assert(out@ =~= header + spec_regs_text(self@.regs, i + 1));
            }
            i += 1;
        }
        proof {
            assert(out@ =~= spec_dump(self@));
        }
        out
    }

    /// Write the byte `val` at `addr`, or fault if the address is out of
    /// range. On a fault the state is unchanged.
    pub fn write_mem(&mut self, addr: u32, val: u8) -> (r: Result<(), Fault>)
        requires
            old(self).wf(),
        ensures
            final(self).wf(),
            final(self)@.pc == old(self)@.pc,
            final(self)@.regs == old(self)@.regs,
            (match r {
                Ok(()) => {
                    &&& addr < MEM_SIZE
                    &&& final(self)@.mem == old(self)@.mem.update(addr as int, val)
                },
                Err(f) => {
                    &&& addr >= MEM_SIZE
                    &&& f@ == (FaultV::MemoryFault { address: addr })
                    &&& final(self)@.mem == old(self)@.mem
                },
            }),
    {
        if addr < MEM_SIZE {
            self.mem[addr as usize] = val;
            Ok(())
        } else {
            Err(Fault::MemoryFault { address: addr })
        }
    }
}

} // verus!
