//! The instruction cache.
use vstd::prelude::*;

use crate::isa::Instruction;

verus! {

/// The number of instructions that the cache holds.
pub const ICACHE_SIZE: usize = 1024;

/// What an instruction cache holds: one slot for each address modulo the cache size.
#[verifier::ext_equal]
pub ghost struct IcacheView {
    pub slots: Seq<Option<(u32, Instruction)>>,
}

impl IcacheView {
    /// The size is right.
    pub open spec fn wf(self) -> bool {
        self.slots.len() == ICACHE_SIZE
    }

    /// The cache holds nothing.
    pub open spec fn initial() -> IcacheView {
        IcacheView { slots: Seq::new(ICACHE_SIZE as nat, |i: int| None) }
    }

    /// The slot of the instruction at `pc`.
    pub open spec fn slot(pc: u32) -> int {
        pc as int % ICACHE_SIZE as int
    }

    /// The instruction at `pc`, where the cache holds it.
    pub open spec fn cached(self, pc: u32) -> Option<Instruction> {
        match self.slots[IcacheView::slot(pc)] {
            Some(entry) => if entry.0 == pc {
                Some(entry.1)
            } else {
                None
            },
            None => None,
        }
    }

    /// The cache after it has taken an instruction in.
    pub open spec fn inserted(self, pc: u32, instruction: Instruction) -> IcacheView {
        IcacheView { slots: self.slots.update(IcacheView::slot(pc), Some((pc, instruction))) }
    }

    /// An instruction that has been taken in is found again; it displaces at most the one of its
    /// own slot.
    pub proof fn law_insert_lookup(self, pc: u32, instruction: Instruction, other: u32)
        requires
            self.wf(),
        ensures
            self.inserted(pc, instruction).wf(),
            self.inserted(pc, instruction).cached(other) == if other == pc {
                Some(instruction)
            } else if IcacheView::slot(other) == IcacheView::slot(pc) {
                None
            } else {
                self.cached(other)
            },
    {
    }
}

/// Instruction cache for faster instruction fetch.
pub struct InstructionCache {
    entries: Box<[(u32, Instruction); ICACHE_SIZE]>,
    valid: Box<[bool; ICACHE_SIZE]>,
}

impl View for InstructionCache {
    type V = IcacheView;

    closed spec fn view(&self) -> IcacheView {
        IcacheView {
            slots: Seq::new(
                ICACHE_SIZE as nat,
                |i: int|
                    if self.valid@[i] {
                        Some(self.entries@[i])
                    } else {
                        None
                    },
            ),
        }
    }
}

impl Default for InstructionCache {
    fn default() -> (cache: InstructionCache)
        ensures
            cache@ == IcacheView::initial(),
    {
        let nothing = Instruction::default();
        let cache = InstructionCache {
            entries: Box::new([(0u32, nothing); 1024]),
            valid: Box::new([false; 1024]),
        };
        assert(cache@ =~= IcacheView::initial());
        cache
    }
}

impl Clone for InstructionCache {
    fn clone(&self) -> (cache: InstructionCache)
        ensures
            cache@ == self@,
    {
        InstructionCache { entries: Box::new(*self.entries), valid: Box::new(*self.valid) }
    }
}

impl InstructionCache {
    /// The instruction at `pc`, where the cache holds it.
    pub fn lookup(&self, pc: u32) -> (instruction: Option<Instruction>)
        ensures
            self@.wf(),
            instruction == self@.cached(pc),
    {
        let slot: usize = (pc % 1024) as usize;
        if self.valid[slot] && self.entries[slot].0 == pc {
            Some(self.entries[slot].1)
        } else {
            None
        }
    }

    /// Takes an instruction in.
    pub fn insert(&mut self, pc: u32, instruction: Instruction)
        ensures
            old(self)@.wf(),
            final(self)@ == old(self)@.inserted(pc, instruction),
    {
        let slot: usize = (pc % 1024) as usize;
        self.entries[slot] = (pc, instruction);
        self.valid[slot] = true;
        assert(self@ =~= old(self)@.inserted(pc, instruction));
    }
}

impl IcacheView {
    /// The cache has one place for all addresses that agree in their last ten bits. What is taken in is
    /// found at its own address and nowhere else, and puts out what had its place.
    pub proof fn law_places(self, pc: u32, instruction: Instruction, other: u32)
        requires
            self.slots.len() == 1024,
        ensures
            ({
                let after = self.inserted(pc, instruction);
                &&& after.slots.len() == 1024
                &&& after.cached(pc) == Some(instruction)
                &&& other != pc && other % 1024 == pc % 1024 ==> after.cached(other) is None
                &&& other % 1024 != pc % 1024 ==> after.cached(other) == self.cached(other)
                &&& self.cached(pc) matches Some(found) ==> self.slots[pc as int % 1024] == Some(
                    (pc, found),
                )
                &&& IcacheView::initial().cached(pc) is None
            }),
    {
    }
}

} // verus!
