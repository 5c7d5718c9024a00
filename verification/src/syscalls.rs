//! System calls: their codes and implementations, which of them are called often, and a cache of
//! implementations.
use std::sync::Arc;

use vstd::prelude::*;

use crate::hooks::HookRegistry;
use crate::index::WordSet;
use crate::memory::RuntimeLog;
use crate::state::ExecutionState;
use crate::table::Table;

verus! {

/// The number of implementations that the cache holds.
pub const SYSCALL_CACHE_SIZE: usize = 64;

/// The number of calls after which it is settled anew which system calls are hot.
pub const SYSCALL_STATS_THRESHOLD: u32 = 100;

/// Ends the program.
pub const HALT: u32 = 0x00_00_00_00;

/// Writes to a file descriptor.
pub const WRITE: u32 = 0x00_00_00_02;

/// Leaves unconstrained mode.
pub const EXIT_UNCONSTRAINED: u32 = 0x00_00_00_04;

/// What a system call is told of the machine, and what it may decide.
#[derive(Clone, Copy, PartialEq, Eq, Structural, Debug)]
pub struct SyscallContext {
    /// The current shard.
    pub current_shard: u32,
    /// The clock at the time of the call.
    pub clk: u32,
    /// The address of the next instruction.
    pub next_pc: u32,
    /// The exit code of the program.
    pub exit_code: u32,
}

/// The code and the two arguments of a system call.
#[derive(Clone, Copy, PartialEq, Eq, Structural, Debug)]
pub struct SyscallArguments {
    pub code: u32,
    pub arg1: u32,
    pub arg2: u32,
}

/// The implementation of a system call.
///
/// An implementation may change the state of the machine and the log of its memory accesses as it
/// likes.
pub trait Syscall: Send + Sync {
    /// A name for what an implementation does: the call may turn the first context, state and log
    /// into the second and give back `result`. Of an implementation that says nothing more, anything
    /// may be.
    open spec fn effect(
        &self,
        hooks: HookRegistry,
        arguments: SyscallArguments,
        before: (SyscallContext, ExecutionState, RuntimeLog),
        after: (SyscallContext, ExecutionState, RuntimeLog),
        result: Option<u32>,
    ) -> bool {
        true
    }

    /// Executes the call. The result, if there is one, goes to the register that held the code.
    fn execute(
        &self,
        ctx: &mut SyscallContext,
        state: &mut ExecutionState,
        log: &mut RuntimeLog,
        hooks: &HookRegistry,
        arguments: SyscallArguments,
    ) -> (result: Option<u32>)
        ensures
            self.effect(
                *hooks,
                arguments,
                (*old(ctx), *old(state), *old(log)),
                (*final(ctx), *final(state), *final(log)),
                result,
            ),
    ;

    /// A name for how long an implementation takes: the call may take so many clock steps beyond
    /// those of an instruction. Of an implementation that says nothing more, any number may be.
    open spec fn takes(&self, cycles: u32) -> bool {
        true
    }

    /// The number of clock steps that the call takes beyond those of an instruction.
    fn num_extra_cycles(&self) -> (cycles: u32)
        ensures
            self.takes(cycles),
    ;
}

/// An implementation of a system call, to be shared.
pub struct SyscallImpl {
    pub implementation: Box<dyn Syscall>,
}

/// What the statistics of system calls say.
#[verifier::ext_equal]
pub ghost struct SyscallStatsView {
    pub call_counts: Map<u32, u32>,
    pub hot_syscalls: Set<u32>,
    pub total_calls: u32,
}

impl SyscallStatsView {
    /// Nothing has been called.
    pub open spec fn initial() -> SyscallStatsView {
        SyscallStatsView { call_counts: Map::empty(), hot_syscalls: Set::empty(), total_calls: 0 }
    }

    /// How often a system call has been called.
    pub open spec fn count(self, code: u32) -> u32 {
        if self.call_counts.contains_key(code) {
            self.call_counts[code]
        } else {
            0
        }
    }

    /// The statistics after it has been settled which system calls are hot: those that make up more
    /// than a tenth of all calls.
    pub open spec fn settled(self) -> SyscallStatsView {
        SyscallStatsView {
            hot_syscalls: self.call_counts.dom().filter(
                |code: u32| self.call_counts[code] > self.total_calls / 10,
            ),
            ..self
        }
    }

    /// The statistics after a call.
    pub open spec fn recorded(self, code: u32) -> SyscallStatsView {
        let counted = SyscallStatsView {
            total_calls: self.total_calls.wrapping_add(1),
            call_counts: self.call_counts.insert(code, self.count(code).wrapping_add(1)),
            ..self
        };
        if counted.total_calls % SYSCALL_STATS_THRESHOLD == 0 {
            counted.settled()
        } else {
            counted
        }
    }

    /// Only what has been called is hot.
    pub open spec fn sound(self) -> bool {
        self.hot_syscalls.subset_of(self.call_counts.dom())
    }

    /// A call is counted once; a system call gets hot only with every hundredth call, and only if
    /// it has been called.
    pub proof fn law_hot(self, code: u32)
        ensures
            SyscallStatsView::initial().sound(),
            self.recorded(code).count(code) == self.count(code).wrapping_add(1),
            forall|other: u32|
                other != code ==> #[trigger] self.recorded(code).count(other) == self.count(other),
            self.total_calls.wrapping_add(1) % SYSCALL_STATS_THRESHOLD != 0 ==> self.recorded(
                code,
            ).hot_syscalls == self.hot_syscalls,
            self.sound() ==> self.recorded(code).sound(),
    {
    }
}

/// Statistics of system calls.
pub struct SyscallStats {
    call_counts: Table<u32>,
    hot_syscalls: WordSet,
    total_calls: u32,
}

impl View for SyscallStats {
    type V = SyscallStatsView;

    closed spec fn view(&self) -> SyscallStatsView {
        SyscallStatsView {
            call_counts: self.call_counts@,
            hot_syscalls: self.hot_syscalls@,
            total_calls: self.total_calls,
        }
    }
}

impl Default for SyscallStats {
    fn default() -> (stats: SyscallStats)
        ensures
            stats@ == SyscallStatsView::initial(),
    {
        SyscallStats { call_counts: Table::new(), hot_syscalls: WordSet::new(), total_calls: 0 }
    }
}

impl Clone for SyscallStats {
    fn clone(&self) -> (stats: SyscallStats)
        ensures
            stats@ == self@,
    {
        SyscallStats {
            call_counts: self.call_counts.duplicate(),
            hot_syscalls: self.hot_syscalls.clone(),
            total_calls: self.total_calls,
        }
    }
}

impl SyscallStats {
    /// Counts a call.
    pub fn record_syscall(&mut self, code: u32)
        ensures
            final(self)@ == old(self)@.recorded(code),
    {
        self.total_calls = self.total_calls.wrapping_add(1);
        let count: u32 = match self.call_counts.get(code) {
            Some(count) => *count,
            None => 0,
        };
        self.call_counts.insert(code, count.wrapping_add(1));
        if self.total_calls % SYSCALL_STATS_THRESHOLD == 0 {
            self.update_hot_syscalls();
        }
    }

    /// Settles which system calls are hot.
    pub fn update_hot_syscalls(&mut self)
        ensures
            final(self)@ == old(self)@.settled(),
    {
        self.hot_syscalls.clear();
        let threshold: u32 = self.total_calls / 10;
        let total: usize = self.call_counts.len();
        let ghost keys = self.call_counts.keys();
        let mut i: usize = 0;
        while i < total
            invariant
                i <= total,
                total == keys.len(),
                keys == self.call_counts.keys(),
                self.call_counts.keys_are_domain(),
                self.call_counts == old(self).call_counts,
                self.total_calls == old(self).total_calls,
                threshold == self.total_calls / 10,
                forall|code: u32| #[trigger]
                    self.hot_syscalls@.contains(code) ==> self.call_counts@.contains_key(code)
                        && self.call_counts@[code] > threshold,
                forall|j: int|
                    0 <= j < i && self.call_counts@[#[trigger] keys[j]] > threshold
                        ==> self.hot_syscalls@.contains(keys[j]),
            decreases total - i,
        {
            let (code, count) = self.call_counts.entry_at(i);
            let often = *count > threshold;
            let ghost before = self.hot_syscalls@;
            if often {
                self.hot_syscalls.insert(code);
                assert(self.hot_syscalls@ == before.insert(code));
            }
            i = i + 1;
        }
        proof {
            assert forall|code: u32| old(self)@.settled().hot_syscalls.contains(code) implies
                self.hot_syscalls@.contains(code) by {
                assert(keys.contains(code));
                let j = choose|j: int| 0 <= j < keys.len() && keys[j] == code;
                assert(self.call_counts@[keys[j]] > threshold);
            }
            assert(self@ =~= old(self)@.settled());
        }
    }

    /// Whether a system call is hot.
    pub fn is_hot_syscall(&self, code: u32) -> (hot: bool)
        ensures
            hot == self@.hot_syscalls.contains(code),
    {
        self.hot_syscalls.contains(code)
    }
}

/// What the cache of implementations holds: slots, and the slot to fill next.
#[verifier::ext_equal]
pub ghost struct SyscallCacheView {
    pub slots: Seq<Option<(u32, Arc<SyscallImpl>)>>,
    pub next_slot: int,
}

impl SyscallCacheView {
    /// The size is right and the next slot is one.
    pub open spec fn wf(self) -> bool {
        &&& self.slots.len() == SYSCALL_CACHE_SIZE
        &&& 0 <= self.next_slot < SYSCALL_CACHE_SIZE
    }

    /// The cache holds nothing.
    pub open spec fn initial() -> SyscallCacheView {
        SyscallCacheView {
            slots: Seq::new(SYSCALL_CACHE_SIZE as nat, |i: int| None),
            next_slot: 0,
        }
    }

    /// Slot `i` holds an implementation of the system call.
    pub open spec fn hit(self, i: int, code: u32) -> bool {
        &&& 0 <= i < self.slots.len()
        &&& self.slots[i] is Some
        &&& self.slots[i].unwrap().0 == code
    }

    /// The implementation in the first slot from `from` on that holds one.
    pub open spec fn cached(self, code: u32, from: int) -> Option<Arc<SyscallImpl>>
        decreases self.slots.len() - from,
    {
        if from >= self.slots.len() {
            None
        } else if self.hit(from, code) {
            Some(self.slots[from].unwrap().1)
        } else {
            self.cached(code, from + 1)
        }
    }

    /// The cache after it has taken an implementation in, in the place of the oldest one.
    pub open spec fn inserted(self, code: u32, implementation: Arc<SyscallImpl>) -> SyscallCacheView {
        SyscallCacheView {
            slots: self.slots.update(self.next_slot, Some((code, implementation))),
            next_slot: (self.next_slot + 1) % SYSCALL_CACHE_SIZE as int,
        }
    }

    proof fn lemma_absent(self, code: u32, from: int)
        requires
            0 <= from,
            self.cached(code, from) is None,
        ensures
            forall|i: int| from <= i ==> !#[trigger] self.hit(i, code),
        decreases self.slots.len() - from,
    {
        if from < self.slots.len() {
            self.lemma_absent(code, from + 1);
        }
    }

    proof fn lemma_only(self, code: u32, from: int, at: int)
        requires
            0 <= from <= at < self.slots.len(),
            self.hit(at, code),
            forall|i: int| from <= i < at ==> !#[trigger] self.hit(i, code),
        ensures
            self.cached(code, from) == Some(self.slots[at].unwrap().1),
        decreases at - from,
    {
        if from < at {
            self.lemma_only(code, from + 1, at);
        }
    }

    /// An implementation that was not cached is found after it has been taken in.
    pub proof fn law_insert_lookup(self, code: u32, implementation: Arc<SyscallImpl>)
        requires
            self.wf(),
            self.cached(code, 0) is None,
        ensures
            self.inserted(code, implementation).wf(),
            self.inserted(code, implementation).cached(code, 0) == Some(implementation),
    {
        let after = self.inserted(code, implementation);
        self.lemma_absent(code, 0);
        assert forall|i: int| 0 <= i < self.next_slot implies !#[trigger] after.hit(i, code) by {
            assert(!self.hit(i, code));
        }
        after.lemma_only(code, 0, self.next_slot);
    }
}

/// Cache of system call implementations.
pub struct SyscallCache {
    entries: Vec<Option<(u32, Arc<SyscallImpl>)>>,
    next_slot: usize,
}

impl View for SyscallCache {
    type V = SyscallCacheView;

    closed spec fn view(&self) -> SyscallCacheView {
        SyscallCacheView { slots: self.entries@, next_slot: self.next_slot as int }
    }
}

impl Default for SyscallCache {
    fn default() -> (cache: SyscallCache)
        ensures
            cache@ == SyscallCacheView::initial(),
    {
        let mut entries: Vec<Option<(u32, Arc<SyscallImpl>)>> = Vec::new();
        let mut i: usize = 0;
        while i < SYSCALL_CACHE_SIZE
            invariant
                i <= SYSCALL_CACHE_SIZE,
                entries@.len() == i,
                forall|j: int| 0 <= j < i ==> #[trigger] entries@[j] is None,
            decreases SYSCALL_CACHE_SIZE - i,
        {
            entries.push(None);
            i = i + 1;
        }
        let cache = SyscallCache { entries, next_slot: 0 };
        assert(cache@ =~= SyscallCacheView::initial());
        cache
    }
}

impl SyscallCache {
    #[verifier::type_invariant]
    spec fn in_range(&self) -> bool {
        self.entries@.len() == SYSCALL_CACHE_SIZE && self.next_slot < SYSCALL_CACHE_SIZE
    }

    /// The cached implementation of a system call.
    pub fn lookup(&self, code: u32) -> (implementation: Option<Arc<SyscallImpl>>)
        ensures
            self@.wf(),
            implementation == self@.cached(code, 0),
    {
        proof {
            use_type_invariant(self);
        }
        let mut i: usize = 0;
        while i < SYSCALL_CACHE_SIZE
            invariant
                i <= SYSCALL_CACHE_SIZE,
                self@.wf(),
                self@.cached(code, 0) == self@.cached(code, i as int),
            decreases SYSCALL_CACHE_SIZE - i,
        {
            if let Some(entry) = &self.entries[i] {
                if entry.0 == code {
                    return Some(entry.1.clone());
                }
            }
            i = i + 1;
        }
        None
    }

    /// Takes an implementation in, in the place of the oldest one.
    pub fn insert(&mut self, code: u32, implementation: Arc<SyscallImpl>)
        ensures
            old(self)@.wf(),
            final(self)@ == old(self)@.inserted(code, implementation),
    {
        proof {
            use_type_invariant(&*self);
        }
        let slot: usize = self.next_slot;
        self.entries[slot] = Some((code, implementation));
        self.next_slot = (slot + 1) % SYSCALL_CACHE_SIZE;
        assert(self@ =~= old(self)@.inserted(code, implementation));
    }
}

impl SyscallStatsView {
    /// A call is counted in all and for its own number. With every hundredth call it is settled which
    /// system calls are hot: just those that have been called more often than a tenth of all calls,
    /// rounded down.
    pub proof fn law_calls(self, code: u32, other: u32)
        ensures
            ({
                let after = self.recorded(code);
                let own = match self.call_counts.get(code) {
                    Some(count) => count.wrapping_add(1),
                    None => 1,
                };
                &&& after.total_calls == self.total_calls.wrapping_add(1)
                &&& after.call_counts.get(code) == Some(own)
                &&& other != code ==> after.call_counts.get(other) == self.call_counts.get(other)
                &&& after.total_calls % 100 != 0 ==> after.hot_syscalls == self.hot_syscalls
                &&& after.total_calls % 100 == 0 ==> (after.hot_syscalls.contains(other)
                    <==> after.call_counts.contains_key(other) && after.call_counts[other]
                    > after.total_calls / 10)
                &&& self.settled().call_counts == self.call_counts
                &&& self.settled().total_calls == self.total_calls
                &&& self.settled().hot_syscalls.contains(other) <==> self.call_counts.contains_key(
                    other,
                ) && self.call_counts[other] > self.total_calls / 10
            }),
    {
    }
}

impl SyscallCacheView {
    /// An implementation that is taken in takes the next of 64 places, and the place behind it is the
    /// next one. The cache gives the implementation of the first place that has the number, and none
    /// where no place has it.
    pub proof fn law_cache_places(self, code: u32, implementation: Arc<SyscallImpl>, i: int)
        requires
            self.slots.len() == 64,
            0 <= self.next_slot < 64,
            0 <= i < 64,
        ensures
            ({
                let after = self.inserted(code, implementation);
                &&& after.slots == self.slots.update(self.next_slot, Some((code, implementation)))
                &&& after.next_slot == if self.next_slot == 63 {
                    0
                } else {
                    self.next_slot + 1
                }
                &&& self.slots[i] is Some && self.slots[i].unwrap().0 == code && (forall|j: int|
                    0 <= j < i ==> !(#[trigger] self.slots[j] is Some && self.slots[j].unwrap().0
                        == code)) ==> self.cached(code, 0) == Some(self.slots[i].unwrap().1)
                &&& (forall|j: int|
                    0 <= j < 64 ==> !(#[trigger] self.slots[j] is Some && self.slots[j].unwrap().0
                        == code)) ==> self.cached(code, 0) is None
            }),
    {
        if self.slots[i] is Some && self.slots[i].unwrap().0 == code && (forall|j: int|
            0 <= j < i ==> !(#[trigger] self.slots[j] is Some && self.slots[j].unwrap().0
                == code)) {
            assert(self.hit(i, code));
            assert forall|j: int| 0 <= j < i implies !#[trigger] self.hit(j, code) by {
                assert(!(self.slots[j] is Some && self.slots[j].unwrap().0 == code));
            }
            self.lemma_only(code, 0, i);
        }
        if forall|j: int|
            0 <= j < 64 ==> !(#[trigger] self.slots[j] is Some && self.slots[j].unwrap().0
                == code) {
            self.lemma_none(code, 0);
        }
    }

    proof fn lemma_none(self, code: u32, from: int)
        requires
            0 <= from,
            forall|j: int|
                from <= j < self.slots.len() ==> !(#[trigger] self.slots[j] is Some
                    && self.slots[j].unwrap().0 == code),
        ensures
            self.cached(code, from) is None,
        decreases self.slots.len() - from,
    {
        if from < self.slots.len() {
            assert(!(self.slots[from] is Some && self.slots[from].unwrap().0 == code));
            self.lemma_none(code, from + 1);
        }
    }
}

} // verus!
