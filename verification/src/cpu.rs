use vstd::prelude::*;

use crate::ram;
use crate::stack;

verus! {

/// Index of the flag register: overwritten as a carry/borrow/collision
/// indicator by several instructions, otherwise a general register.
pub const FLAG_REG: u8 = 0x0F;

/// A 4-bit selector into the 16-entry general-purpose register file.
#[derive(Copy, Clone, Debug, PartialEq, Eq, Structural)]
pub struct Reg(pub u8);

impl Reg {
    /// A well-formed register index selects one of the 16 registers.
    pub open spec fn wf(self) -> bool {
        self.0 < 16
    }
}

/// The processor state: program counter, stack pointer, timers, index
/// register, and the 16-entry register file. Mutated only by the
/// execution engine.
pub struct CPU {
    /// Program counter
    pub pc: ram::Addr,
    /// Stack pointer
    pub sp: stack::Addr,
    /// Sound timer
    pub st: u8,
    /// Delay timer
    pub dt: u8,
    /// Index register
    pub idx: ram::Addr,
    /// General purpose registers
    pub reg: Vec<u8>,
}

impl CPU {
    /// A well-formed CPU: addresses in range, pointer within the stack,
    /// exactly 16 registers.
    pub open spec fn wf(self) -> bool {
        &&& self.pc.wf()
        &&& self.sp.wf()
        &&& self.idx.wf()
        &&& self.reg@.len() == 16
    }

    /// Read register `r`.
    pub fn get(&self, r: Reg) -> (v: u8)
        requires
            self.wf(),
            r.wf(),
        ensures
            v == self.reg@[r.0 as int],
    {
        self.reg[r.0 as usize]
    }

    /// Overwrite register `r`.
    pub fn set(&mut self, r: Reg, v: u8)
        requires
            old(self).wf(),
            r.wf(),
        ensures
            final(self).reg@ == old(self).reg@.update(r.0 as int, v),
            final(self).pc == old(self).pc,
            final(self).sp == old(self).sp,
            final(self).st == old(self).st,
            final(self).dt == old(self).dt,
            final(self).idx == old(self).idx,
            final(self).wf(),
    {
        self.reg[r.0 as usize] = v;
    }
}

impl Default for CPU {
    /// The reset state: program counter at the program start, everything
    /// else zero.
    fn default() -> (r: Self)
        ensures
            r.wf(),
            r.pc.0 == ram::PROGRAM_START,
            r.sp.0 == 0,
            r.st == 0,
            r.dt == 0,
            r.idx.0 == 0,
            r.reg@ == Seq::new(16, |i: int| 0u8),
    {
        let mut reg: Vec<u8> = Vec::new();
        let mut i: usize = 0;
        while i < 16
            invariant
                i <= 16,
                reg@.len() == i,
                forall|k: int| 0 <= k < i ==> reg@[k] == 0u8,
            decreases 16 - i,
        {
            reg.push(0);
            i = i + 1;
        }
        assert(reg@ =~= Seq::new(16, |i: int| 0u8));
        CPU {
            pc: ram::Addr(ram::PROGRAM_START),
            sp: stack::Addr(0),
            st: 0,
            dt: 0,
            idx: ram::Addr(0),
            reg,
        }
    }
}

} // verus!
