//! Register allocation tracking: how often registers are used, over which stretch of the program
//! each is live, and which of them are spilled to memory.
use vstd::prelude::*;

use crate::isa::Register;
use crate::table::Table;

verus! {

/// The number of registers.
pub const NUM_REGISTERS: usize = 32;

/// The number of registers that may be live before one is spilled.
pub const REGISTER_WINDOW_SIZE: usize = 8;

/// The number of accesses above which a register counts as frequently used.
pub const REGISTER_SPILL_THRESHOLD: u32 = 100;

/// The stretch of the program over which a register is live.
#[derive(Clone, Copy, PartialEq, Eq, Structural, Debug)]
pub struct LiveRange {
    /// The first access.
    pub start_pc: u32,
    /// The last access.
    pub end_pc: u32,
    /// The number of accesses.
    pub access_count: u32,
    /// Whether the register lives in memory.
    pub is_spilled: bool,
}

impl LiveRange {
    /// The register is live at `pc` and in its own place.
    pub open spec fn active(self, pc: u32) -> bool {
        self.start_pc <= pc && self.end_pc >= pc && !self.is_spilled
    }
}

/// The state of the allocator.
#[verifier::ext_equal]
pub ghost struct AllocatorView {
    pub access_counts: Seq<u32>,
    pub live_ranges: Map<u32, LiveRange>,
    pub spill_counts: Seq<u32>,
    pub current_function_start: u32,
}

impl AllocatorView {
    /// The sizes are right.
    pub open spec fn wf(self) -> bool {
        self.access_counts.len() == NUM_REGISTERS && self.spill_counts.len() == NUM_REGISTERS
    }

    /// Nothing has been accessed.
    pub open spec fn initial() -> AllocatorView {
        AllocatorView {
            access_counts: Seq::new(NUM_REGISTERS as nat, |i: int| 0u32),
            live_ranges: Map::empty(),
            spill_counts: Seq::new(NUM_REGISTERS as nat, |i: int| 0u32),
            current_function_start: 0,
        }
    }

    /// The registers that are live at `pc` and in their own places.
    pub open spec fn active(self, pc: u32) -> Set<u32> {
        self.live_ranges.dom().filter(|register: u32| self.live_ranges[register].active(pc))
    }

    /// The register lives in memory.
    pub open spec fn spilled(self, register: Register) -> bool {
        self.live_ranges.contains_key(register as u32)
            && self.live_ranges[register as u32].is_spilled
    }

    /// The live range of a register after an access at `pc`.
    pub open spec fn extended(self, register: Register, pc: u32) -> LiveRange {
        let range = if self.live_ranges.contains_key(register as u32) {
            self.live_ranges[register as u32]
        } else {
            LiveRange { start_pc: pc, end_pc: pc, access_count: 0, is_spilled: false }
        };
        LiveRange { access_count: range.access_count.wrapping_add(1), end_pc: pc, ..range }
    }

    /// The allocator after an access has been counted.
    pub open spec fn counted(self, register: Register, pc: u32) -> AllocatorView {
        AllocatorView {
            access_counts: self.access_counts.update(
                register as int,
                self.access_counts[register as int].wrapping_add(1),
            ),
            live_ranges: self.live_ranges.insert(register as u32, self.extended(register, pc)),
            ..self
        }
    }

    /// The allocator after a register has been considered for spilling: it is spilled unless it
    /// is frequently used, if too many registers are active.
    pub open spec fn considered(self, register: Register, pc: u32) -> AllocatorView {
        if self.access_counts[register as int] <= REGISTER_SPILL_THRESHOLD && self.active(pc).len()
            > REGISTER_WINDOW_SIZE && self.live_ranges.contains_key(register as u32) {
            AllocatorView {
                live_ranges: self.live_ranges.insert(
                    register as u32,
                    LiveRange { is_spilled: true, ..self.live_ranges[register as u32] },
                ),
                spill_counts: self.spill_counts.update(
                    register as int,
                    self.spill_counts[register as int].wrapping_add(1),
                ),
                ..self
            }
        } else {
            self
        }
    }

    /// The allocator after an access to a register at `pc`.
    pub open spec fn recorded(self, register: Register, pc: u32) -> AllocatorView {
        let counted = self.counted(register, pc);
        if self.extended(register, pc).access_count > REGISTER_SPILL_THRESHOLD {
            counted.considered(register, pc)
        } else {
            counted
        }
    }

    /// The allocator after a function has been entered.
    pub open spec fn entered(self, start_pc: u32) -> AllocatorView {
        AllocatorView {
            current_function_start: start_pc,
            live_ranges: Map::empty(),
            ..self
        }
    }

    /// No register is spilled or has ever been, and none has been accessed more often in its live
    /// range than overall.
    pub open spec fn unspilled(self) -> bool {
        &&& self.wf()
        &&& forall|i: int| 0 <= i < NUM_REGISTERS ==> #[trigger] self.spill_counts[i] == 0
        &&& forall|register: u32| #[trigger]
            self.live_ranges.contains_key(register) ==> {
                &&& register < NUM_REGISTERS
                &&& !self.live_ranges[register].is_spilled
                &&& self.live_ranges[register].access_count <= self.access_counts[register as int]
            }
    }

    /// As long as the access counter of a register does not wrap, no access spills the register:
    /// it is considered only when it is frequently used, and then it stays where it is.
    pub proof fn law_unspilled(self, register: Register, pc: u32, start_pc: u32)
        ensures
            AllocatorView::initial().unspilled(),
            self.unspilled() && self.access_counts[register as int] < u32::MAX ==> self.recorded(
                register,
                pc,
            ).unspilled(),
            self.unspilled() ==> self.entered(start_pc).unspilled(),
            self.unspilled() ==> !self.spilled(register),
    {
    }
}

/// What an allocator may be told.
pub ghost enum AllocatorStep {
    /// A register is accessed at a program counter.
    Accessed(Register, u32),
    /// A function is entered.
    Entered(u32),
}

/// The number of accesses to a register.
pub open spec fn accesses_of(steps: Seq<AllocatorStep>, register: int) -> nat
    decreases steps.len(),
{
    if steps.len() == 0 {
        0
    } else {
        let before = accesses_of(steps.drop_last(), register);
        match steps.last() {
            AllocatorStep::Accessed(accessed, pc) if accessed as int == register => before + 1,
            _ => before,
        }
    }
}

impl AllocatorView {
    /// The allocator after it has been told a list of things.
    pub open spec fn after_steps(steps: Seq<AllocatorStep>) -> AllocatorView
        decreases steps.len(),
    {
        if steps.len() == 0 {
            AllocatorView::initial()
        } else {
            let before = AllocatorView::after_steps(steps.drop_last());
            match steps.last() {
                AllocatorStep::Accessed(register, pc) => before.recorded(register, pc),
                AllocatorStep::Entered(start_pc) => before.entered(start_pc),
            }
        }
    }

    /// However an allocator has come about, it counts every access, no register is spilled or has ever
    /// been, and none has been accessed more often in its live range than overall. The accesses to a
    /// register are as many as its counter holds.
    pub proof fn law_never_spilled(steps: Seq<AllocatorStep>)
        requires
            forall|i: int|
                0 <= i < NUM_REGISTERS ==> #[trigger] accesses_of(steps, i) <= u32::MAX,
        ensures
            AllocatorView::after_steps(steps).unspilled(),
            forall|i: int|
                0 <= i < NUM_REGISTERS ==> #[trigger] AllocatorView::after_steps(
                    steps,
                ).access_counts[i] == accesses_of(steps, i),
            forall|register: Register| !#[trigger] AllocatorView::after_steps(steps).spilled(
                register,
            ),
        decreases steps.len(),
    {
        if steps.len() > 0 {
            let start = steps.drop_last();
            assert forall|i: int| 0 <= i < NUM_REGISTERS implies #[trigger] accesses_of(start, i)
                <= u32::MAX by {
                assert(accesses_of(steps, i) <= u32::MAX);
            }
            AllocatorView::law_never_spilled(start);
            let before = AllocatorView::after_steps(start);
            match steps.last() {
                AllocatorStep::Accessed(register, pc) => {
                    assert(0 <= register as int && (register as int) < NUM_REGISTERS);
                    assert(accesses_of(steps, register as int) <= u32::MAX);
                    assert(before.access_counts[register as int] == accesses_of(
                        start,
                        register as int,
                    ));
                    before.law_unspilled(register, pc, 0);
                    let after = AllocatorView::after_steps(steps);
                    assert forall|i: int| 0 <= i < NUM_REGISTERS implies #[trigger] after.access_counts[i]
                        == accesses_of(steps, i) by {
                        assert(before.access_counts[i] == accesses_of(start, i));
                    }
                },
                AllocatorStep::Entered(start_pc) => {
                    before.law_unspilled(Register::X0, 0, start_pc);
                    assert forall|i: int| 0 <= i < NUM_REGISTERS implies #[trigger] AllocatorView::after_steps(
                        steps,
                    ).access_counts[i] == accesses_of(steps, i) by {
                        assert(before.access_counts[i] == accesses_of(start, i));
                    }
                },
            }
        }
    }

    /// An access counts for its register alone and ends its live range at the program counter.
    pub proof fn law_access(self, register: Register, pc: u32, other: int)
        requires
            self.unspilled(),
            self.access_counts[register as int] < u32::MAX,
            0 <= other < NUM_REGISTERS,
        ensures
            self.recorded(register, pc).access_counts[other] == if other == register as int {
                self.access_counts[other] + 1
            } else {
                self.access_counts[other] as int
            },
            self.recorded(register, pc).live_ranges.contains_key(register as u32),
            self.recorded(register, pc).live_ranges[register as u32].end_pc == pc,
    {
    }
}

/// Register allocation tracker.
pub struct RegisterAllocator {
    access_counts: [u32; NUM_REGISTERS],
    live_ranges: Table<LiveRange>,
    spill_counts: [u32; NUM_REGISTERS],
    current_function_start: u32,
}

impl View for RegisterAllocator {
    type V = AllocatorView;

    closed spec fn view(&self) -> AllocatorView {
        AllocatorView {
            access_counts: self.access_counts@,
            live_ranges: self.live_ranges@,
            spill_counts: self.spill_counts@,
            current_function_start: self.current_function_start,
        }
    }
}

impl Default for RegisterAllocator {
    fn default() -> (allocator: RegisterAllocator)
        ensures
            allocator@ == AllocatorView::initial(),
    {
        let allocator = RegisterAllocator {
            access_counts: [0u32; 32],
            live_ranges: Table::new(),
            spill_counts: [0u32; 32],
            current_function_start: 0,
        };
        assert(allocator@ =~= AllocatorView::initial());
        allocator
    }
}

impl Clone for RegisterAllocator {
    fn clone(&self) -> (allocator: RegisterAllocator)
        ensures
            allocator@ == self@,
    {
        RegisterAllocator {
            access_counts: self.access_counts,
            live_ranges: self.live_ranges.duplicate(),
            spill_counts: self.spill_counts,
            current_function_start: self.current_function_start,
        }
    }
}

impl RegisterAllocator {
    /// Counts an access to a register at `pc` and considers spilling the register.
    pub fn record_access(&mut self, register: Register, pc: u32, _is_write: bool)
        ensures
            old(self)@.wf(),
            final(self)@ == old(self)@.recorded(register, pc),
    {
        let index: usize = register as usize;
        self.access_counts[index] = self.access_counts[index].wrapping_add(1);
        let mut range = match self.live_ranges.get(register as u32) {
            Some(range) => *range,
            None => LiveRange { start_pc: pc, end_pc: pc, access_count: 0, is_spilled: false },
        };
        range.access_count = range.access_count.wrapping_add(1);
        range.end_pc = pc;
        self.live_ranges.insert(register as u32, range);
        assert(self@ =~= old(self)@.counted(register, pc));
        if range.access_count > REGISTER_SPILL_THRESHOLD {
            self.consider_spill(register, pc);
        }
    }

    /// Spills a register that is not frequently used if too many registers are active at `pc`.
    pub fn consider_spill(&mut self, register: Register, pc: u32)
        ensures
            old(self)@.wf(),
            final(self)@ == old(self)@.considered(register, pc),
    {
        let index: usize = register as usize;
        if self.access_counts[index] > REGISTER_SPILL_THRESHOLD {
            return;
        }
        let active_count: usize = self.count_active(pc);
        if active_count > REGISTER_WINDOW_SIZE {
            let range = match self.live_ranges.get(register as u32) {
                Some(range) => Some(*range),
                None => None,
            };
            if let Some(mut range) = range {
                range.is_spilled = true;
                self.live_ranges.insert(register as u32, range);
                self.spill_counts[index] = self.spill_counts[index].wrapping_add(1);
            }
        }
        assert(self@ =~= old(self)@.considered(register, pc));
    }

    /// The number of registers that are live at `pc` and in their own places.
    fn count_active(&self, pc: u32) -> (count: usize)
        ensures
            count == self@.active(pc).len(),
    {
        let total: usize = self.live_ranges.len();
        let ghost keys = self.live_ranges.keys();
        let ghost mut seen: Set<u32> = Set::empty();
        let mut count: usize = 0;
        let mut i: usize = 0;
        while i < total
            invariant
                i <= total,
                total == keys.len(),
                keys == self.live_ranges.keys(),
                self.live_ranges.keys_are_domain(),
                seen.finite(),
                count == seen.len(),
                count <= i,
                forall|register: u32| #[trigger]
                    seen.contains(register) ==> self.live_ranges@.contains_key(register)
                        && self.live_ranges@[register].active(pc),
                forall|register: u32| #[trigger]
                    seen.contains(register) ==> exists|j: int|
                        0 <= j < i && #[trigger] keys[j] == register,
                forall|j: int|
                    0 <= j < i && self.live_ranges@[#[trigger] keys[j]].active(pc)
                        ==> seen.contains(keys[j]),
            decreases total - i,
        {
            let (register, range) = self.live_ranges.entry_at(i);
            if range.start_pc <= pc && range.end_pc >= pc && !range.is_spilled {
                proof {
                    let before = seen;
                    assert(!before.contains(register)) by {
                        if before.contains(register) {
                            let j = choose|j: int| 0 <= j < i && #[trigger] keys[j] == register;
                            assert(keys[j] == keys[i as int]);
                        }
                    }
                    seen = seen.insert(register);
                    assert forall|r: u32| #[trigger] seen.contains(r) implies exists|j: int|
                        0 <= j < i + 1 && #[trigger] keys[j] == r by {
                        if r == register {
                            assert(keys[i as int] == r);
                        } else {
                            let j = choose|j: int| 0 <= j < i && #[trigger] keys[j] == r;
                            assert(0 <= j < i + 1 && keys[j] == r);
                        }
                    }
                }
                count = count + 1;
            }
            i = i + 1;
        }
        proof {
            assert forall|register: u32| self@.active(pc).contains(register) implies seen.contains(
                register,
            ) by {
                assert(keys.contains(register));
                let j = choose|j: int| 0 <= j < keys.len() && keys[j] == register;
                assert(self.live_ranges@[keys[j]].active(pc));
            }
            assert(seen =~= self@.active(pc));
        }
        count
    }

    /// Whether the register lives in memory.
    pub fn should_spill(&self, register: Register) -> (spilled: bool)
        ensures
            spilled == self@.spilled(register),
    {
        match self.live_ranges.get(register as u32) {
            Some(range) => range.is_spilled,
            None => false,
        }
    }

    /// Notes that a function has been entered: all live ranges end.
    pub fn new_function(&mut self, start_pc: u32)
        ensures
            final(self)@ == old(self)@.entered(start_pc),
    {
        self.current_function_start = start_pc;
        self.live_ranges.clear();
        assert(self@ =~= old(self)@.entered(start_pc));
    }
}

impl AllocatorView {
    /// An access adds one to the count of its register and to that of its live range, which ends at the
    /// access now and starts with it where it is new; all other registers stay. A function that is entered
    /// ends all live ranges.
    pub proof fn law_ranges(self, register: Register, pc: u32, start_pc: u32, other: u32)
        requires
            self.unspilled(),
            self.access_counts[register as int] < u32::MAX,
        ensures
            ({
                let after = self.recorded(register, pc);
                let number = register as u32;
                let range = after.live_ranges[number];
                &&& after.access_counts == self.access_counts.update(
                    register as int,
                    (self.access_counts[register as int] + 1) as u32,
                )
                &&& after.spill_counts == self.spill_counts
                &&& after.current_function_start == self.current_function_start
                &&& after.live_ranges.contains_key(number)
                &&& range.end_pc == pc
                &&& !range.is_spilled
                &&& self.live_ranges.contains_key(number) ==> {
                    &&& range.start_pc == self.live_ranges[number].start_pc
                    &&& range.access_count == self.live_ranges[number].access_count + 1
                }
                &&& !self.live_ranges.contains_key(number) ==> range.start_pc == pc
                    && range.access_count == 1
                &&& other != number ==> after.live_ranges.get(other) == self.live_ranges.get(other)
                &&& self.entered(start_pc).live_ranges.dom() == Set::<u32>::empty()
                &&& self.entered(start_pc).access_counts == self.access_counts
                &&& self.entered(start_pc).spill_counts == self.spill_counts
                &&& self.entered(start_pc).current_function_start == start_pc
            }),
    {
        self.law_unspilled(register, pc, start_pc);
        assert(self.entered(start_pc).live_ranges.dom() =~= Set::<u32>::empty());
    }

    /// A register is spilled just where it has a live range, has been accessed at most a hundred times,
    /// and more than eight registers are live at the program counter and in their own places. It lives
    /// in memory from then on, and the spill is counted; nothing else changes.
    pub proof fn law_considered(self, register: Register, pc: u32)
        requires
            self.wf(),
        ensures
            ({
                let after = self.considered(register, pc);
                let number = register as u32;
                let live = Set::new(
                    |r: u32|
                        self.live_ranges.contains_key(r) && self.live_ranges[r].start_pc <= pc
                            && pc <= self.live_ranges[r].end_pc && !self.live_ranges[r].is_spilled,
                );
                let spills = self.live_ranges.contains_key(number)
                    && self.access_counts[register as int] <= 100 && live.len() > 8;
                &&& !spills ==> after == self
                &&& spills ==> {
                    &&& after.spilled(register)
                    &&& after.live_ranges == self.live_ranges.insert(
                        number,
                        LiveRange { is_spilled: true, ..self.live_ranges[number] },
                    )
                    &&& after.spill_counts == self.spill_counts.update(
                        register as int,
                        self.spill_counts[register as int].wrapping_add(1),
                    )
                    &&& after.access_counts == self.access_counts
                }
                &&& self.spilled(register) <==> self.live_ranges.contains_key(number)
                    && self.live_ranges[number].is_spilled
            }),
    {
        let live = Set::new(
            |r: u32|
                self.live_ranges.contains_key(r) && self.live_ranges[r].start_pc <= pc && pc
                    <= self.live_ranges[r].end_pc && !self.live_ranges[r].is_spilled,
        );
        assert(live =~= self.active(pc));
    }
}

} // verus!
