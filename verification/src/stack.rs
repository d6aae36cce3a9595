use vstd::prelude::*;

verus! {

/// Number of return addresses the call stack can hold.
pub const STACK_DEPTH: u8 = 16;

/// The stack pointer: counts how many return addresses are on the stack,
/// so it ranges over `0 ..= STACK_DEPTH`.
#[derive(Copy, Clone, Debug, Default, PartialEq, Eq, Structural)]
pub struct Addr(pub u8);

impl Addr {
    /// A well-formed stack pointer never exceeds the stack depth.
    pub open spec fn wf(self) -> bool {
        self.0 <= STACK_DEPTH
    }

    /// Step the pointer down by one. The caller must have ruled out
    /// underflow beforehand.
    pub fn dec(&mut self)
        requires
            old(self).0 > 0,
        ensures
            final(self).0 == old(self).0 - 1,
    {
        self.0 = self.0 - 1;
    }

    /// Step the pointer up by one. The caller must have ruled out
    /// overflow beforehand.
    pub fn inc(&mut self)
        requires
            old(self).0 < STACK_DEPTH,
        ensures
            final(self).0 == old(self).0 + 1,
    {
        self.0 = self.0 + 1;
    }
}

/// Stack memory: 16 saved return addresses.
#[derive(Clone)]
pub struct Mem {
    slots: Vec<u16>,
}

impl View for Mem {
    type V = Seq<u16>;

    closed spec fn view(&self) -> Seq<u16> {
        self.slots@
    }
}

impl Mem {
    /// A well-formed stack has exactly 16 slots, each a 12-bit address.
    pub open spec fn wf(self) -> bool {
        &&& self@.len() == STACK_DEPTH
        &&& forall|i: int| 0 <= i < self@.len() ==> self@[i] < 0x1000
    }

    /// An empty stack: all slots zero.
    pub fn new() -> (r: Self)
        ensures
            r.wf(),
            r@ == Seq::new(16, |i: int| 0u16),
    {
        let mut slots: Vec<u16> = Vec::new();
        let mut i: usize = 0;
        while i < 16
            invariant
                i <= 16,
                slots@.len() == i,
                forall|k: int| 0 <= k < i ==> slots@[k] == 0u16,
            decreases 16 - i,
        {
            slots.push(0);
            i = i + 1;
        }
        let r = Mem { slots };
        assert(r@ =~= Seq::new(16, |i: int| 0u16));
        r
    }

    /// Read the return address saved in slot `a`.
    pub fn get(&self, a: Addr) -> (r: u16)
        requires
            self.wf(),
            a.0 < STACK_DEPTH,
        ensures
            r == self@[a.0 as int],
            r < 0x1000,
    {
        self.slots[a.0 as usize]
    }

    /// Save a return address into slot `a`.
    pub fn set(&mut self, a: Addr, v: u16)
        requires
            old(self).wf(),
            a.0 < STACK_DEPTH,
            v < 0x1000,
        ensures
            final(self).wf(),
            final(self)@ == old(self)@.update(a.0 as int, v),
    {
        self.slots[a.0 as usize] = v;
    }
}

} // verus!
