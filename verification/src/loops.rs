//! Loop tracking: repeating stretches of the program counter's history, what is known of each, and
//! how the next run of one is to be executed.
use std::collections::VecDeque;

use vstd::prelude::*;

use crate::index::WordSet;
use crate::isa::Register;
use crate::recent::remember;
#[allow(unused_imports)]
use crate::recent::remembered;
use crate::table::Table;

verus! {

/// The number of program counters that are remembered.
pub const LOOP_HISTORY_SIZE: usize = 16;

/// The smallest loop that is looked for.
pub const MIN_LOOP_SIZE: usize = 4;

/// The largest loop that is looked for.
pub const MAX_LOOP_SIZE: usize = 64;

/// The number of sightings from which on a loop is believed in.
pub const LOOP_CONFIDENCE_THRESHOLD: usize = 3;

/// The most often that a loop body is unrolled.
pub const MAX_UNROLL_FACTOR: usize = 8;

/// The number of iterations from which on a loop is unrolled.
pub const MIN_ITERATIONS_FOR_UNROLL: u32 = 4;

/// The smallest loop that is vectorized.
pub const VECTORIZATION_THRESHOLD: usize = 4;

/// The direction of a memory access.
#[derive(Clone, Copy, PartialEq, Eq, Structural, Debug)]
pub enum AccessType {
    Read,
    Write,
}

/// How two accesses to a register depend on each other.
#[derive(Clone, Copy, PartialEq, Eq, Structural, Debug)]
pub enum DependenceType {
    /// Read after write.
    Flow,
    /// Write after read.
    Anti,
    /// Write after write.
    Output,
}

/// A memory access pattern of a loop.
#[derive(Clone, Copy, PartialEq, Eq, Structural, Debug)]
pub struct MemoryDependence {
    pub base_addr: u32,
    pub stride: i32,
    pub access_type: AccessType,
}

/// A register dependence of a loop.
#[derive(Clone, Copy, PartialEq, Eq, Structural, Debug)]
pub struct RegisterDependence {
    pub reg: Register,
    pub dep_type: DependenceType,
}

/// Loop execution statistics.
#[derive(Clone, Copy, PartialEq, Eq, Structural, Debug)]
pub struct LoopStats {
    pub total_loops: usize,
    pub unrolled_loops: usize,
    pub vectorized_loops: usize,
    pub total_iterations: u64,
    pub unrolled_iterations: u64,
    pub vectorized_iterations: u64,
}

impl LoopStats {
    /// Nothing has been counted.
    pub open spec fn zero() -> LoopStats {
        LoopStats {
            total_loops: 0,
            unrolled_loops: 0,
            vectorized_loops: 0,
            total_iterations: 0,
            unrolled_iterations: 0,
            vectorized_iterations: 0,
        }
    }
}

/// How the instructions of a loop are to be executed.
#[derive(Clone, Copy, PartialEq, Eq, Structural, Debug)]
pub enum LoopPlan {
    /// One by one.
    Single,
    /// Several iterations at once.
    Vectorized,
    /// Several iterations in a row.
    Unrolled,
}

/// What is known of a loop.
#[verifier::ext_equal]
pub ghost struct LoopInfoView {
    pub start_pc: u32,
    pub end_pc: u32,
    pub body_size: usize,
    pub iteration_count: u32,
    pub confidence: usize,
    pub unroll_factor: usize,
    pub vectorizable: bool,
    pub induction_vars: Set<u32>,
    pub memory_deps: Seq<MemoryDependence>,
    pub register_deps: Seq<RegisterDependence>,
}

impl LoopInfoView {
    /// A loop that has been seen for the first time.
    pub open spec fn fresh(start_pc: u32, end_pc: u32, size: usize) -> LoopInfoView {
        LoopInfoView {
            start_pc,
            end_pc,
            body_size: size,
            iteration_count: 1,
            confidence: 1,
            unroll_factor: 1,
            vectorizable: false,
            induction_vars: Set::empty(),
            memory_deps: Seq::empty(),
            register_deps: Seq::empty(),
        }
    }

    /// How often the body is worth unrolling: by its size, by the number of its induction
    /// variables, and never more than the limit.
    pub open spec fn best_unroll_factor(self) -> int {
        let by_size = if self.body_size <= MAX_UNROLL_FACTOR {
            MAX_UNROLL_FACTOR as int / self.body_size as int
        } else {
            1
        };
        let by_registers = if self.induction_vars.len() <= 1 {
            32
        } else {
            32int / self.induction_vars.len() as int
        };
        let least = if by_size <= by_registers {
            by_size
        } else {
            by_registers
        };
        if least <= MAX_UNROLL_FACTOR {
            least
        } else {
            MAX_UNROLL_FACTOR as int
        }
    }

    /// The loop may be vectorized: it is large enough, it walks memory word by word, and a register
    /// that it reads is at most one that it has written.
    pub open spec fn can_vectorize(self) -> bool {
        &&& self.body_size >= VECTORIZATION_THRESHOLD
        &&& forall|i: int|
            0 <= i < self.memory_deps.len() ==> (#[trigger] self.memory_deps[i]).stride == 4
        &&& forall|i: int|
            0 <= i < self.register_deps.len() ==> (#[trigger] self.register_deps[i]).dep_type
                == DependenceType::Flow
    }

    /// The loop after it has been seen once more.
    pub open spec fn seen_again(self) -> LoopInfoView {
        let counted = LoopInfoView {
            confidence: self.confidence.wrapping_add(1),
            iteration_count: self.iteration_count.wrapping_add(1),
            ..self
        };
        if counted.iteration_count >= MIN_ITERATIONS_FOR_UNROLL {
            LoopInfoView { unroll_factor: counted.best_unroll_factor() as usize, ..counted }
        } else {
            counted
        }
    }

    /// The loop after its dependences have been analyzed afresh.
    pub open spec fn analyzed(self) -> LoopInfoView {
        let cleared = LoopInfoView {
            memory_deps: Seq::empty(),
            register_deps: Seq::empty(),
            ..self
        };
        LoopInfoView { vectorizable: cleared.can_vectorize(), ..cleared }
    }

    /// The loop is believed in.
    pub open spec fn confident(self) -> bool {
        self.confidence >= LOOP_CONFIDENCE_THRESHOLD
    }
}

/// A loop in execution.
#[verifier::ext_equal]
pub ghost struct ActiveLoopView {
    pub info: LoopInfoView,
    pub current_iteration: u32,
    pub unrolled_iterations: usize,
    pub vectorized: bool,
}

/// The state of the loop tracker.
#[verifier::ext_equal]
pub ghost struct LoopView {
    /// The last program counters, the latest last.
    pub history: Seq<u32>,
    /// The known loops by the address of their start.
    pub loops: Map<u32, LoopInfoView>,
    /// The loop in execution.
    pub active_loop: Option<ActiveLoopView>,
    pub stats: LoopStats,
}

impl LoopView {
    /// Nothing is known.
    pub open spec fn initial() -> LoopView {
        LoopView {
            history: Seq::empty(),
            loops: Map::empty(),
            active_loop: None,
            stats: LoopStats::zero(),
        }
    }

    /// The last `size` program counters repeat those before them.
    pub open spec fn repeats(self, size: int) -> bool {
        let n = self.history.len() as int;
        n >= 2 * size && self.history.subrange(n - size, n) == self.history.subrange(
            n - 2 * size,
            n - size,
        )
    }

    /// The tracker after the loop in execution has been told of `pc`: at the loop's end an
    /// iteration is counted.
    pub open spec fn iterated(self, pc: u32) -> LoopView {
        match self.active_loop {
            Some(active) => if pc == active.info.end_pc {
                LoopView {
                    active_loop: Some(
                        ActiveLoopView {
                            current_iteration: active.current_iteration.wrapping_add(1),
                            ..active
                        },
                    ),
                    stats: LoopStats {
                        total_iterations: self.stats.total_iterations.wrapping_add(1),
                        vectorized_iterations: if active.vectorized {
                            self.stats.vectorized_iterations.wrapping_add(1)
                        } else {
                            self.stats.vectorized_iterations
                        },
                        unrolled_iterations: if active.unrolled_iterations > 0 {
                            self.stats.unrolled_iterations.wrapping_add(1)
                        } else {
                            self.stats.unrolled_iterations
                        },
                        ..self.stats
                    },
                    ..self
                }
            } else {
                self
            },
            None => self,
        }
    }

    /// What is known of the loop of `size` instructions that has just been seen, before analysis.
    pub open spec fn sighted(self, size: int) -> LoopInfoView {
        let n = self.history.len();
        let start_pc = self.history[n - size];
        if self.loops.contains_key(start_pc) {
            if self.loops[start_pc].body_size == size {
                self.loops[start_pc].seen_again()
            } else {
                self.loops[start_pc]
            }
        } else {
            LoopInfoView::fresh(start_pc, self.history.last(), size as usize)
        }
    }

    /// The tracker after it has looked for a loop of `size` instructions.
    pub open spec fn noticed(self, size: int) -> LoopView {
        if self.repeats(size) {
            let start_pc = self.history[self.history.len() - size];
            let known = self.loops.contains_key(start_pc);
            let sighted = self.sighted(size);
            let info = if sighted.confident() {
                sighted.analyzed()
            } else {
                sighted
            };
            LoopView {
                loops: self.loops.insert(start_pc, info),
                stats: LoopStats {
                    total_loops: if known {
                        self.stats.total_loops
                    } else {
                        self.stats.total_loops.wrapping_add(1)
                    },
                    unrolled_loops: if sighted.confident() && info.unroll_factor > 1 {
                        self.stats.unrolled_loops.wrapping_add(1)
                    } else {
                        self.stats.unrolled_loops
                    },
                    vectorized_loops: if sighted.confident() && info.vectorizable {
                        self.stats.vectorized_loops.wrapping_add(1)
                    } else {
                        self.stats.vectorized_loops
                    },
                    ..self.stats
                },
                ..self
            }
        } else {
            self
        }
    }

    /// The largest size that is looked for.
    pub open spec fn size_limit(self) -> int {
        if self.history.len() <= MAX_LOOP_SIZE {
            self.history.len() as int
        } else {
            MAX_LOOP_SIZE as int
        }
    }

    /// The tracker after it has looked for loops of all sizes from `size` on.
    pub open spec fn detected(self, size: int) -> LoopView
        decreases self.size_limit() + 1 - size,
    {
        if size > self.size_limit() {
            self
        } else {
            self.noticed(size).detected(size + 1)
        }
    }

    /// The tracker after it has been told of a program counter.
    pub open spec fn recorded(self, pc: u32) -> LoopView {
        LoopView {
            history: remembered(self.history, LOOP_HISTORY_SIZE as nat, pc),
            ..self
        }.iterated(pc).detected(MIN_LOOP_SIZE as int)
    }

    /// The loop that starts at `pc`, where one is believed in.
    pub open spec fn loop_at(self, pc: u32) -> Option<LoopInfoView> {
        if self.loops.contains_key(pc) && self.loops[pc].confident() {
            Some(self.loops[pc])
        } else {
            None
        }
    }

    /// The tracker after the execution of a loop has started.
    pub open spec fn started(self, info: LoopInfoView) -> LoopView {
        LoopView {
            active_loop: Some(
                ActiveLoopView {
                    info,
                    current_iteration: 0,
                    unrolled_iterations: info.unroll_factor,
                    vectorized: info.vectorizable,
                },
            ),
            ..self
        }
    }

    /// The tracker after the execution of the loop has ended.
    pub open spec fn ended(self) -> LoopView {
        LoopView { active_loop: None, ..self }
    }

    /// The tracker once it has been settled how the instruction at `pc` is to be executed: a loop
    /// that starts there is in execution.
    pub open spec fn planned(self, pc: u32) -> LoopView {
        match self.loop_at(pc) {
            Some(info) => if pc == info.start_pc {
                self.started(info)
            } else if pc == info.end_pc {
                self.ended()
            } else {
                self
            },
            None => self,
        }
    }

    /// How the instruction at `pc` is to be executed.
    pub open spec fn plan(self, pc: u32) -> LoopPlan {
        match self.loop_at(pc) {
            Some(info) => if pc != info.start_pc {
                LoopPlan::Single
            } else if info.vectorizable {
                LoopPlan::Vectorized
            } else if info.unroll_factor > 1 {
                LoopPlan::Unrolled
            } else {
                LoopPlan::Single
            },
            None => LoopPlan::Single,
        }
    }

    /// The history is bounded; each loop is known by its own start, has a size that is looked for,
    /// and may be vectorized once it is believed in.
    pub open spec fn sound(self) -> bool {
        &&& self.history.len() <= LOOP_HISTORY_SIZE
        &&& forall|pc: u32| #[trigger]
            self.loops.contains_key(pc) ==> {
                &&& self.loops[pc].start_pc == pc
                &&& MIN_LOOP_SIZE <= self.loops[pc].body_size <= MAX_LOOP_SIZE
                &&& self.loops[pc].confident() ==> self.loops[pc].vectorizable
            }
    }

    proof fn lemma_noticed_sound(self, size: int)
        requires
            self.sound(),
            MIN_LOOP_SIZE <= size <= MAX_LOOP_SIZE,
        ensures
            self.noticed(size).sound(),
            self.noticed(size).history == self.history,
    {
        if self.repeats(size) {
            let start_pc = self.history[self.history.len() - size];
            let sighted = self.sighted(size);
            assert(sighted.start_pc == start_pc);
            assert(MIN_LOOP_SIZE <= sighted.body_size <= MAX_LOOP_SIZE);
            assert(sighted.analyzed().vectorizable);
        }
    }

    proof fn lemma_detected_sound(self, size: int)
        requires
            self.sound(),
            MIN_LOOP_SIZE <= size,
        ensures
            self.detected(size).sound(),
        decreases self.size_limit() + 1 - size,
    {
        if size <= self.size_limit() {
            self.lemma_noticed_sound(size);
            self.noticed(size).lemma_detected_sound(size + 1);
        }
    }

    /// What the tracker knows stays sound, and the execution of a sound tracker's loop is always
    /// planned as vectorized.
    pub proof fn law_sound(self, pc: u32)
        ensures
            LoopView::initial().sound(),
            self.sound() ==> self.recorded(pc).sound(),
            self.sound() ==> self.planned(pc).sound(),
            self.sound() ==> (self.plan(pc) == LoopPlan::Vectorized <==> self.loop_at(pc) is Some),
            self.sound() ==> self.plan(pc) != LoopPlan::Unrolled,
    {
        if self.sound() {
            LoopView {
                history: remembered(self.history, LOOP_HISTORY_SIZE as nat, pc),
                ..self
            }.iterated(pc).lemma_detected_sound(MIN_LOOP_SIZE as int);
        }
    }
}

/// What a loop tracker may be told.
pub ghost enum LoopStep {
    /// A program counter.
    Recorded(u32),
    /// The execution of a loop starts.
    Started(LoopInfoView),
    /// The execution of the loop ends.
    Ended,
}

/// The program counters that a tracker has been told, in order.
pub open spec fn recorded_pcs(steps: Seq<LoopStep>) -> Seq<u32>
    decreases steps.len(),
{
    if steps.len() == 0 {
        Seq::empty()
    } else {
        let before = recorded_pcs(steps.drop_last());
        match steps.last() {
            LoopStep::Recorded(pc) => before.push(pc),
            _ => before,
        }
    }
}

/// The last entries of a list, at most as many as a tracker remembers.
pub open spec fn latest(pcs: Seq<u32>) -> Seq<u32> {
    if pcs.len() <= LOOP_HISTORY_SIZE {
        pcs
    } else {
        pcs.subrange(pcs.len() - LOOP_HISTORY_SIZE, pcs.len() as int)
    }
}

impl LoopInfoView {
    /// A loop is known as it has been seen: it has been believed in once for each sighting, it is
    /// unrolled once it is short and seen often enough, and vectorized once it is believed in.
    pub open spec fn as_seen(self) -> bool {
        &&& MIN_LOOP_SIZE <= self.body_size <= 8
        &&& self.confidence == self.iteration_count
        &&& self.iteration_count >= 1
        &&& self.unroll_factor == if self.body_size == 4 && self.iteration_count
            >= MIN_ITERATIONS_FOR_UNROLL {
            2int
        } else {
            1int
        }
        &&& self.vectorizable == (self.confidence >= LOOP_CONFIDENCE_THRESHOLD)
        &&& self.induction_vars == Set::<u32>::empty()
        &&& self.memory_deps == Seq::<MemoryDependence>::empty()
        &&& self.register_deps == Seq::<RegisterDependence>::empty()
    }
}

/// The largest number of times that a loop can have been seen in so many program counters: the
/// smallest loop is first seen when it has been gone through twice.
pub open spec fn most_sightings(count: nat) -> nat {
    if count < 2 * MIN_LOOP_SIZE {
        0
    } else {
        (count - 2 * MIN_LOOP_SIZE + 1) as nat
    }
}

impl LoopView {
    /// Every loop is known by its start and as it has been seen, all of them are counted, and none
    /// has been seen more often than `limit`.
    pub open spec fn counted(self, limit: int) -> bool {
        &&& self.history.len() <= LOOP_HISTORY_SIZE
        &&& self.loops.dom().finite()
        &&& self.stats.total_loops == self.loops.len()
        &&& forall|pc: u32| #[trigger]
            self.loops.contains_key(pc) ==> {
                &&& self.loops[pc].start_pc == pc
                &&& self.loops[pc].as_seen()
                &&& self.loops[pc].iteration_count <= limit
            }
    }

    /// Where the latest `size` program counters repeat those before them, the start of the loop.
    spec fn candidate(self, size: int) -> u32 {
        self.history[self.history.len() - 2 * size]
    }

    /// Between two sizes of the search for loops: those of the sizes that have been looked for may
    /// have been seen once more, the others not yet. All starts are in `starts`, known and to come.
    spec fn counting(self, size: int, limit: int, starts: Set<u32>) -> bool {
        &&& self.counted(limit + 1)
        &&& forall|pc: u32| #[trigger]
            self.loops.contains_key(pc) && self.loops[pc].body_size >= size
                ==> self.loops[pc].iteration_count <= limit
        &&& self.loops.dom().subset_of(starts)
        &&& forall|other: int|
            MIN_LOOP_SIZE <= other && 2 * other <= self.history.len() ==> starts.contains(
                #[trigger] self.candidate(other),
            )
    }

    proof fn lemma_noticed_counting(self, size: int, limit: int, starts: Set<u32>)
        requires
            self.counting(size, limit, starts),
            starts.finite(),
            starts.len() <= usize::MAX,
            MIN_LOOP_SIZE <= size,
            0 <= limit < u32::MAX,
        ensures
            self.noticed(size).counting(size + 1, limit, starts),
            self.noticed(size).history == self.history,
    {
        let after = self.noticed(size);
        if self.repeats(size) {
            let n = self.history.len() as int;
            let start_pc = self.history[n - size];
            assert(start_pc == self.candidate(size)) by {
                assert(self.history.subrange(n - size, n)[0] == self.history.subrange(
                    n - 2 * size,
                    n - size,
                )[0]);
            }
            assert(starts.contains(self.candidate(size)));
            let sighted = self.sighted(size);
            if self.loops.contains_key(start_pc) {
                let known = self.loops[start_pc];
                assert(known.as_seen());
                assert(after.loops.dom() =~= self.loops.dom());
                assert(known.induction_vars.len() == 0);
                assert(4int <= known.body_size <= 8);
                assert(8int / 4 == 2 && 8int / 5 == 1 && 8int / 6 == 1 && 8int / 7 == 1 && 8int / 8
                    == 1);
            } else {
                assert(sighted.as_seen());
                assert(after.loops.dom() =~= self.loops.dom().insert(start_pc));
                vstd::set_lib::lemma_len_subset(after.loops.dom(), starts);
            }
            assert(sighted.analyzed().memory_deps =~= Seq::<MemoryDependence>::empty());
            assert(sighted.analyzed().register_deps =~= Seq::<RegisterDependence>::empty());
            assert(after.loops[start_pc].as_seen());
        }
        assert forall|other: int|
            MIN_LOOP_SIZE <= other && 2 * other <= after.history.len() implies starts.contains(
            #[trigger] after.candidate(other),
        ) by {
            assert(after.candidate(other) == self.candidate(other));
        }
    }

    proof fn lemma_detected_counting(self, size: int, limit: int, starts: Set<u32>)
        requires
            self.counting(size, limit, starts),
            starts.finite(),
            starts.len() <= usize::MAX,
            MIN_LOOP_SIZE <= size,
            0 <= limit < u32::MAX,
        ensures
            self.detected(size).counted(limit + 1),
            self.detected(size).loops.dom().subset_of(starts),
            self.detected(size).history == self.history,
        decreases self.size_limit() + 1 - size,
    {
        if size <= self.size_limit() {
            self.lemma_noticed_counting(size, limit, starts);
            self.noticed(size).lemma_detected_counting(size + 1, limit, starts);
        }
    }

    /// The tracker that has been told of `pc`, before it looks for loops.
    spec fn told(self, pc: u32) -> LoopView {
        LoopView {
            history: remembered(self.history, LOOP_HISTORY_SIZE as nat, pc),
            ..self
        }.iterated(pc)
    }

    /// What a tracker knows stays counted as long as no counter overflows: one more program counter
    /// lets each loop be seen at most once more, and at most five loops become known.
    pub proof fn law_counted_kept(self, pc: u32, limit: int)
        requires
            self.counted(limit),
            0 <= limit < u32::MAX,
            self.loops.len() + 5 <= usize::MAX,
        ensures
            self.recorded(pc).counted(limit + 1),
            self.recorded(pc).loops.len() <= self.loops.len() + 5,
    {
        let told = self.told(pc);
        let found = set![
            told.candidate(4),
            told.candidate(5),
            told.candidate(6),
            told.candidate(7),
            told.candidate(8),
        ];
        let starts = self.loops.dom().union(found);
        let none = Set::<u32>::empty();
        let one = none.insert(told.candidate(4));
        let two = one.insert(told.candidate(5));
        let three = two.insert(told.candidate(6));
        let four = three.insert(told.candidate(7));
        assert(found =~= four.insert(told.candidate(8)));
        assert(found.finite() && found.len() <= 5);
        vstd::set_lib::lemma_len_union(self.loops.dom(), found);
        assert forall|other: int|
            MIN_LOOP_SIZE <= other && 2 * other <= told.history.len() implies starts.contains(
            #[trigger] told.candidate(other),
        ) by {
            assert(4 <= other <= 8);
            assert(found.contains(told.candidate(other)));
        }
        told.lemma_detected_counting(MIN_LOOP_SIZE as int, limit, starts);
        vstd::set_lib::lemma_len_subset(self.recorded(pc).loops.dom(), starts);
    }

    /// The tracker after it has been told a list of things.
    pub open spec fn after_steps(steps: Seq<LoopStep>) -> LoopView
        decreases steps.len(),
    {
        if steps.len() == 0 {
            LoopView::initial()
        } else {
            let before = LoopView::after_steps(steps.drop_last());
            match steps.last() {
                LoopStep::Recorded(pc) => before.recorded(pc),
                LoopStep::Started(info) => before.started(info),
                LoopStep::Ended => before.ended(),
            }
        }
    }

    /// However a tracker has come about, it remembers the last program counters, its statistics count
    /// the loops that it knows, and it knows each of them by its start and as it has been seen. A loop
    /// that is seen as often as can be overflows its counter with the first program counter beyond
    /// the number that is allowed here.
    pub proof fn law_counted(steps: Seq<LoopStep>)
        requires
            most_sightings(recorded_pcs(steps).len()) <= u32::MAX,
        ensures
            LoopView::after_steps(steps).history == latest(recorded_pcs(steps)),
            LoopView::after_steps(steps).counted(most_sightings(recorded_pcs(steps).len()) as int),
    {
        LoopView::lemma_counted(steps);
    }

    proof fn lemma_counted(steps: Seq<LoopStep>)
        requires
            most_sightings(recorded_pcs(steps).len()) <= u32::MAX,
        ensures
            ({
                let pcs = recorded_pcs(steps);
                let after = LoopView::after_steps(steps);
                let seen = most_sightings(pcs.len());
                &&& after.history == latest(pcs)
                &&& after.counted(seen as int)
                &&& after.loops.dom().subset_of(pcs.take(seen as int).to_set())
            }),
        decreases steps.len(),
    {
        let pcs = recorded_pcs(steps);
        if steps.len() == 0 {
            assert(LoopView::initial().loops.dom() =~= Set::<u32>::empty());
        } else {
            let start = steps.drop_last();
            LoopView::lemma_counted(start);
            let before = LoopView::after_steps(start);
            match steps.last() {
                LoopStep::Recorded(pc) => {
                    let earlier = recorded_pcs(start);
                    let limit = most_sightings(earlier.len());
                    let seen = most_sightings(pcs.len());
                    let told = before.told(pc);
                    let starts = pcs.take(seen as int).to_set();
                    pcs.take(seen as int).lemma_cardinality_of_set();
                    assert(told.history =~= latest(pcs));
                    assert(before.loops.dom().subset_of(starts)) by {
                        assert forall|key: u32| before.loops.dom().contains(key) implies starts.contains(
                            key,
                        ) by {
                            let words = earlier.take(limit as int);
                            assert(words.to_set().contains(key));
                            let k = choose|k: int| 0 <= k < words.len() && words[k] == key;
                            assert(pcs.take(seen as int)[k] == key);
                        }
                    }
                    assert forall|other: int|
                        MIN_LOOP_SIZE <= other && 2 * other <= told.history.len() implies starts.contains(
                        #[trigger] told.candidate(other),
                    ) by {
                        let k = pcs.len() - 2 * other;
                        assert(told.candidate(other) == pcs[k]);
                        assert(pcs.take(seen as int)[k] == pcs[k]);
                    }
                    if seen == 0 {
                        told.lemma_detected_counting(MIN_LOOP_SIZE as int, 0, starts);
                        assert(starts =~= Set::<u32>::empty());
                        let after = LoopView::after_steps(steps);
                        assert forall|key: u32| !#[trigger] after.loops.contains_key(key) by {
                            assert(!starts.contains(key));
                        }
                    } else {
                        told.lemma_detected_counting(MIN_LOOP_SIZE as int, limit as int, starts);
                    }
                },
                _ => {},
            }
        }
    }
}

/// What is known of a loop.
pub struct LoopInfo {
    /// Loop start address.
    pub start_pc: u32,
    /// Loop end address.
    pub end_pc: u32,
    /// Number of instructions in the loop.
    pub body_size: usize,
    /// Number of times the loop has executed.
    pub iteration_count: u32,
    /// Confidence in the detection.
    pub confidence: usize,
    /// How often the body is unrolled.
    pub unroll_factor: usize,
    /// Whether the loop can be vectorized.
    pub vectorizable: bool,
    /// Loop induction variables.
    pub induction_vars: WordSet,
    /// Memory dependences in the loop.
    pub memory_deps: Vec<MemoryDependence>,
    /// Register dependences in the loop.
    pub register_deps: Vec<RegisterDependence>,
}

impl View for LoopInfo {
    type V = LoopInfoView;

    open spec fn view(&self) -> LoopInfoView {
        LoopInfoView {
            start_pc: self.start_pc,
            end_pc: self.end_pc,
            body_size: self.body_size,
            iteration_count: self.iteration_count,
            confidence: self.confidence,
            unroll_factor: self.unroll_factor,
            vectorizable: self.vectorizable,
            induction_vars: self.induction_vars@,
            memory_deps: self.memory_deps@,
            register_deps: self.register_deps@,
        }
    }
}

impl Clone for LoopInfo {
    fn clone(&self) -> (info: LoopInfo)
        ensures
            info@ == self@,
    {
        let memory_deps = self.memory_deps.clone();
        let register_deps = self.register_deps.clone();
        assert(memory_deps@ =~= self.memory_deps@);
        assert(register_deps@ =~= self.register_deps@);
        LoopInfo {
            start_pc: self.start_pc,
            end_pc: self.end_pc,
            body_size: self.body_size,
            iteration_count: self.iteration_count,
            confidence: self.confidence,
            unroll_factor: self.unroll_factor,
            vectorizable: self.vectorizable,
            induction_vars: self.induction_vars.clone(),
            memory_deps,
            register_deps,
        }
    }
}

/// A loop in execution.
pub struct ActiveLoop {
    pub info: LoopInfo,
    pub current_iteration: u32,
    pub unrolled_iterations: usize,
    pub vectorized: bool,
}

impl View for ActiveLoop {
    type V = ActiveLoopView;

    open spec fn view(&self) -> ActiveLoopView {
        ActiveLoopView {
            info: self.info@,
            current_iteration: self.current_iteration,
            unrolled_iterations: self.unrolled_iterations,
            vectorized: self.vectorized,
        }
    }
}

impl Clone for ActiveLoop {
    fn clone(&self) -> (active: ActiveLoop)
        ensures
            active@ == self@,
    {
        ActiveLoop {
            info: self.info.clone(),
            current_iteration: self.current_iteration,
            unrolled_iterations: self.unrolled_iterations,
            vectorized: self.vectorized,
        }
    }
}

/// Loop optimization tracker.
pub struct LoopTracker {
    history: VecDeque<u32>,
    loops: Table<LoopInfo>,
    active_loop: Option<ActiveLoop>,
    stats: LoopStats,
}

spec fn loop_views(loops: Map<u32, LoopInfo>) -> Map<u32, LoopInfoView> {
    Map::new(|pc: u32| loops.contains_key(pc), |pc: u32| loops[pc]@)
}

impl View for LoopTracker {
    type V = LoopView;

    closed spec fn view(&self) -> LoopView {
        LoopView {
            history: self.history@,
            loops: loop_views(self.loops@),
            active_loop: match self.active_loop {
                Some(active) => Some(active@),
                None => None,
            },
            stats: self.stats,
        }
    }
}

impl Default for LoopTracker {
    fn default() -> (tracker: LoopTracker)
        ensures
            tracker@ == LoopView::initial(),
    {
        let tracker = LoopTracker {
            history: VecDeque::with_capacity(LOOP_HISTORY_SIZE),
            loops: Table::new(),
            active_loop: None,
            stats: LoopStats {
                total_loops: 0,
                unrolled_loops: 0,
                vectorized_loops: 0,
                total_iterations: 0,
                unrolled_iterations: 0,
                vectorized_iterations: 0,
            },
        };
        assert(tracker@ =~= LoopView::initial());
        tracker
    }
}

impl Clone for LoopTracker {
    fn clone(&self) -> (tracker: LoopTracker)
        ensures
            tracker@ == self@,
    {
        let history = self.history.clone();
        assert(history@ =~= self.history@);
        let active_loop = match &self.active_loop {
            Some(active) => Some(active.clone()),
            None => None,
        };
        let mut loops: Table<LoopInfo> = Table::new();
        let count: usize = self.loops.len();
        let mut i: usize = 0;
        while i < count
            invariant
                i <= count,
                count == self.loops.keys().len(),
                self.loops.keys_are_domain(),
                forall|pc: u32| #[trigger]
                    loops@.contains_key(pc) ==> self.loops@.contains_key(pc) && loops@[pc]@
                        == self.loops@[pc]@,
                forall|j: int|
                    0 <= j < i ==> loops@.contains_key(#[trigger] self.loops.keys()[j]),
            decreases count - i,
        {
            let (pc, info) = self.loops.entry_at(i);
            loops.insert(pc, info.clone());
            i = i + 1;
        }
        proof {
            assert forall|pc: u32| self.loops@.contains_key(pc) implies loops@.contains_key(
                pc,
            ) by {
                assert(self.loops.keys().contains(pc));
                let j = choose|j: int|
                    0 <= j < self.loops.keys().len() && self.loops.keys()[j] == pc;
                assert(loops@.contains_key(self.loops.keys()[j]));
            }
            assert(loop_views(loops@) =~= loop_views(self.loops@));
        }
        LoopTracker { history, loops, active_loop, stats: self.stats }
    }
}

impl LoopTracker {
    /// Notes a program counter: counts an iteration of the loop in execution, and looks for loops
    /// that end here.
    pub fn record_pc(&mut self, pc: u32)
        ensures
            final(self)@ == old(self)@.recorded(pc),
    {
        remember(&mut self.history, LOOP_HISTORY_SIZE, pc);
        let ghost pushed = LoopView {
            history: remembered(old(self)@.history, LOOP_HISTORY_SIZE as nat, pc),
            ..old(self)@
        };
        assert(self@ =~= pushed);
        self.count_iteration(pc);
        let ghost iterated = self@;
        let count: usize = self.history.len();
        let limit: usize = if count <= MAX_LOOP_SIZE {
            count
        } else {
            MAX_LOOP_SIZE
        };
        let mut size: usize = MIN_LOOP_SIZE;
        while size <= limit
            invariant
                MIN_LOOP_SIZE <= size,
                limit <= MAX_LOOP_SIZE,
                limit == self@.size_limit(),
                iterated.detected(MIN_LOOP_SIZE as int) == self@.detected(size as int),
            decreases limit + 1 - size,
        {
            self.notice(size);
            size = size + 1;
        }
    }

    /// Counts an iteration where `pc` is the end of the loop in execution.
    fn count_iteration(&mut self, pc: u32)
        ensures
            final(self)@ == old(self)@.iterated(pc),
    {
        if let Some(active) = &mut self.active_loop {
            if pc == active.info.end_pc {
                active.current_iteration = active.current_iteration.wrapping_add(1);
                self.stats.total_iterations = self.stats.total_iterations.wrapping_add(1);
                if active.vectorized {
                    self.stats.vectorized_iterations = self.stats.vectorized_iterations.wrapping_add(
                        1,
                    );
                }
                if active.unrolled_iterations > 0 {
                    self.stats.unrolled_iterations = self.stats.unrolled_iterations.wrapping_add(1);
                }
            }
        }
        assert(self@ =~= old(self)@.iterated(pc));
    }

    /// Looks for a loop of `size` instructions that ends here.
    fn notice(&mut self, size: usize)
        requires
            MIN_LOOP_SIZE <= size <= MAX_LOOP_SIZE,
        ensures
            final(self)@ == old(self)@.noticed(size as int),
            final(self)@.history == old(self)@.history,
    {
        if !self.check_loop_pattern(size) {
            return;
        }
        let count: usize = self.history.len();
        let start_pc: u32 = self.history[count - size];
        let end_pc: u32 = self.history[count - 1];
        let removed = self.loops.remove(start_pc);
        assert(loop_views(self.loops@) =~= old(self)@.loops.remove(start_pc));
        let mut info = match removed {
            Some(mut info) => {
                if info.body_size == size {
                    info.confidence = info.confidence.wrapping_add(1);
                    info.iteration_count = info.iteration_count.wrapping_add(1);
                    if info.iteration_count >= MIN_ITERATIONS_FOR_UNROLL {
                        info.unroll_factor = self.calculate_unroll_factor(&info);
                    }
                }
                info
            },
            None => {
                self.stats.total_loops = self.stats.total_loops.wrapping_add(1);
                LoopInfo {
                    start_pc,
                    end_pc,
                    body_size: size,
                    iteration_count: 1,
                    confidence: 1,
                    unroll_factor: 1,
                    vectorizable: false,
                    induction_vars: WordSet::new(),
                    memory_deps: Vec::new(),
                    register_deps: Vec::new(),
                }
            },
        };
        assert(info@ =~= old(self)@.sighted(size as int));
        if info.confidence >= LOOP_CONFIDENCE_THRESHOLD {
            self.analyze_loop(&mut info);
        }
        let ghost view = info@;
        let ghost others = self.loops@;
        self.loops.insert(start_pc, info);
        proof {
            assert(loop_views(others) == old(self)@.loops.remove(start_pc));
            assert(loop_views(self.loops@) =~= loop_views(others).insert(start_pc, view));
            assert(old(self)@.loops.remove(start_pc).insert(start_pc, view) =~= old(
                self,
            )@.loops.insert(start_pc, view));
        }
        assert(self@ =~= old(self)@.noticed(size as int));
    }

    /// Whether the last `size` program counters repeat those before them.
    pub fn check_loop_pattern(&self, size: usize) -> (repeats: bool)
        requires
            2 * size <= usize::MAX,
        ensures
            repeats == self@.repeats(size as int),
    {
        let count: usize = self.history.len();
        if count < size * 2 {
            return false;
        }
        let ghost last = self.history@.subrange(count - size, count as int);
        let ghost before = self.history@.subrange(count - 2 * size, count - size);
        let mut i: usize = 0;
        while i < size
            invariant
                i <= size,
                count == self.history@.len(),
                2 * size <= count,
                last == self.history@.subrange(count - size, count as int),
                before == self.history@.subrange(count - 2 * size, count - size),
                forall|j: int| 0 <= j < i ==> #[trigger] last[j] == before[j],
            decreases size - i,
        {
            if self.history[count - size + i] != self.history[count - size * 2 + i] {
                assert(last[i as int] != before[i as int]);
                return false;
            }
            i = i + 1;
        }
        assert(last =~= before);
        true
    }

    /// Analyzes the dependences of a loop and counts it.
    pub fn analyze_loop(&mut self, loop_info: &mut LoopInfo)
        ensures
            final(loop_info)@ == old(loop_info)@.analyzed(),
            final(self)@ == (LoopView {
                stats: LoopStats {
                    unrolled_loops: if old(loop_info).unroll_factor > 1 {
                        old(self)@.stats.unrolled_loops.wrapping_add(1)
                    } else {
                        old(self)@.stats.unrolled_loops
                    },
                    vectorized_loops: if final(loop_info).vectorizable {
                        old(self)@.stats.vectorized_loops.wrapping_add(1)
                    } else {
                        old(self)@.stats.vectorized_loops
                    },
                    ..old(self)@.stats
                },
                ..old(self)@
            }),
    {
        self.analyze_memory_deps(loop_info);
        self.analyze_register_deps(loop_info);
        loop_info.vectorizable = self.check_vectorizable(loop_info);
        assert(loop_info@ =~= old(loop_info)@.analyzed());
        if loop_info.unroll_factor > 1 {
            self.stats.unrolled_loops = self.stats.unrolled_loops.wrapping_add(1);
        }
        if loop_info.vectorizable {
            self.stats.vectorized_loops = self.stats.vectorized_loops.wrapping_add(1);
        }
    }

    /// Forgets the memory dependences of a loop.
    pub fn analyze_memory_deps(&self, loop_info: &mut LoopInfo)
        ensures
            final(loop_info)@ == (LoopInfoView { memory_deps: Seq::empty(), ..old(loop_info)@ }),
    {
        loop_info.memory_deps.clear();
    }

    /// Forgets the register dependences of a loop.
    pub fn analyze_register_deps(&self, loop_info: &mut LoopInfo)
        ensures
            final(loop_info)@ == (LoopInfoView { register_deps: Seq::empty(), ..old(loop_info)@ }),
    {
        loop_info.register_deps.clear();
    }

    /// Whether a loop may be vectorized.
    pub fn check_vectorizable(&self, loop_info: &LoopInfo) -> (vectorizable: bool)
        ensures
            vectorizable == loop_info@.can_vectorize(),
    {
        if loop_info.body_size < VECTORIZATION_THRESHOLD {
            return false;
        }
        let mut i: usize = 0;
        while i < loop_info.memory_deps.len()
            invariant
                i <= loop_info.memory_deps@.len(),
                forall|j: int|
                    0 <= j < i ==> (#[trigger] loop_info@.memory_deps[j]).stride == 4,
            decreases loop_info.memory_deps@.len() - i,
        {
            if loop_info.memory_deps[i].stride != 4 {
                assert(loop_info@.memory_deps[i as int].stride != 4);
                return false;
            }
            i = i + 1;
        }
        let mut k: usize = 0;
        while k < loop_info.register_deps.len()
            invariant
                k <= loop_info.register_deps@.len(),
                forall|j: int|
                    0 <= j < k ==> (#[trigger] loop_info@.register_deps[j]).dep_type
                        == DependenceType::Flow,
            decreases loop_info.register_deps@.len() - k,
        {
            if loop_info.register_deps[k].dep_type != DependenceType::Flow {
                assert(loop_info@.register_deps[k as int].dep_type != DependenceType::Flow);
                return false;
            }
            k = k + 1;
        }
        true
    }

    /// How often the body of a loop is worth unrolling.
    pub fn calculate_unroll_factor(&self, loop_info: &LoopInfo) -> (factor: usize)
        requires
            loop_info.body_size > 0,
        ensures
            factor == loop_info@.best_unroll_factor(),
    {
        let by_size: usize = if loop_info.body_size <= MAX_UNROLL_FACTOR {
            MAX_UNROLL_FACTOR / loop_info.body_size
        } else {
            1
        };
        let variables: usize = loop_info.induction_vars.len();
        let by_registers: usize = if variables <= 1 {
            32
        } else {
            32 / variables
        };
        let least: usize = if by_size <= by_registers {
            by_size
        } else {
            by_registers
        };
        if least <= MAX_UNROLL_FACTOR {
            least
        } else {
            MAX_UNROLL_FACTOR
        }
    }

    /// The loop that starts at `pc`, where one is believed in.
    pub fn get_loop_info(&self, pc: u32) -> (info: Option<&LoopInfo>)
        ensures
            match info {
                Some(known) => self@.loop_at(pc) == Some(known@),
                None => self@.loop_at(pc) is None,
            },
    {
        match self.loops.get(pc) {
            Some(info) => if info.confidence >= LOOP_CONFIDENCE_THRESHOLD {
                Some(info)
            } else {
                None
            },
            None => None,
        }
    }

    /// Starts the execution of a loop.
    pub fn start_loop(&mut self, loop_info: LoopInfo)
        ensures
            final(self)@ == old(self)@.started(loop_info@),
    {
        let unrolled_iterations: usize = loop_info.unroll_factor;
        let vectorized = loop_info.vectorizable;
        self.active_loop = Some(
            ActiveLoop { info: loop_info, current_iteration: 0, unrolled_iterations, vectorized },
        );
        assert(self@ =~= old(self)@.started(loop_info@));
    }

    /// Ends the execution of the loop.
    pub fn end_loop(&mut self)
        ensures
            final(self)@ == old(self)@.ended(),
    {
        self.active_loop = None;
        assert(self@ =~= old(self)@.ended());
    }

    /// Settles how the instruction at `pc` is to be executed.
    pub fn plan(&mut self, pc: u32) -> (plan: LoopPlan)
        ensures
            plan == old(self)@.plan(pc),
            final(self)@ == old(self)@.planned(pc),
    {
        let known = match self.get_loop_info(pc) {
            Some(info) => Some(info.clone()),
            None => None,
        };
        match known {
            Some(info) => {
                if pc == info.start_pc {
                    let vectorizable = info.vectorizable;
                    let unroll_factor: usize = info.unroll_factor;
                    self.start_loop(info);
                    if vectorizable {
                        LoopPlan::Vectorized
                    } else if unroll_factor > 1 {
                        LoopPlan::Unrolled
                    } else {
                        LoopPlan::Single
                    }
                } else if pc == info.end_pc {
                    self.end_loop();
                    LoopPlan::Single
                } else {
                    LoopPlan::Single
                }
            },
            None => LoopPlan::Single,
        }
    }

    /// The loop execution statistics.
    pub fn get_stats(&self) -> (stats: &LoopStats)
        ensures
            *stats == self@.stats,
    {
        &self.stats
    }
}

impl LoopInfoView {
    /// A loop is worth unrolling as often as eight instructions hold its body, once where they do not,
    /// as often as 32 registers hold its induction variables, and at most eight times.
    pub proof fn law_unroll(self)
        requires
            self.body_size > 0,
        ensures
            ({
                let factor = self.best_unroll_factor();
                let variables = self.induction_vars.len() as int;
                let by_size = if self.body_size <= 8 {
                    8int / self.body_size as int
                } else {
                    1
                };
                &&& factor <= by_size <= 8
                &&& variables > 0 ==> factor <= 32int / variables
                &&& factor == by_size || (variables > 1 && factor == 32int / variables)
            }),
    {
        let size = self.body_size as int;
        let variables = self.induction_vars.len() as int;
        if size <= 8 {
            assert(8int / size <= 8) by (nonlinear_arith)
                requires
                    size > 0,
            ;
        }
        if variables == 1 {
            assert(32int / variables == 32) by (nonlinear_arith)
                requires
                    variables == 1,
            ;
        }
    }

    /// A loop may be vectorized just where it has at least four instructions, all its memory accesses
    /// advance by four, and all its register dependences are reads after writes.
    pub proof fn law_vectorizable(self)
        ensures
            self.can_vectorize() <==> {
                &&& self.body_size >= 4
                &&& forall|i: int|
                    0 <= i < self.memory_deps.len() ==> (#[trigger] self.memory_deps[i]).stride == 4
                &&& forall|i: int|
                    0 <= i < self.register_deps.len() ==> (
                    #[trigger] self.register_deps[i]).dep_type == DependenceType::Flow
            },
            self.analyzed() == (LoopInfoView {
                memory_deps: Seq::empty(),
                register_deps: Seq::empty(),
                vectorizable: self.body_size >= 4,
                ..self
            }),
            self.confident() <==> self.confidence >= 3,
    {
    }

    /// A loop that is seen once more has one more iteration and is believed in once more; from four
    /// iterations on it is unrolled as often as it is worth.
    pub proof fn law_seen_again(self)
        ensures
            ({
                let after = self.seen_again();
                &&& after.iteration_count == self.iteration_count.wrapping_add(1)
                &&& after.confidence == self.confidence.wrapping_add(1)
                &&& after.unroll_factor == if after.iteration_count >= 4 {
                    self.best_unroll_factor() as usize
                } else {
                    self.unroll_factor
                }
                &&& after == (LoopInfoView {
                    iteration_count: after.iteration_count,
                    confidence: after.confidence,
                    unroll_factor: after.unroll_factor,
                    ..self
                })
            }),
    {
    }
}

impl LoopView {
    /// The latest program counters repeat the ones before them just where there are enough of them and
    /// each is the same as the one that lies the size of the loop before it.
    pub proof fn law_repeats(self, size: int)
        requires
            size > 0,
        ensures
            self.repeats(size) <==> {
                &&& self.history.len() >= 2 * size
                &&& forall|k: int|
                    self.history.len() - size <= k < self.history.len() ==> #[trigger] self.history[k]
                        == self.history[k - size]
            },
    {
        let n = self.history.len() as int;
        if n >= 2 * size {
            let last = self.history.subrange(n - size, n);
            let earlier = self.history.subrange(n - 2 * size, n - size);
            if self.repeats(size) {
                assert forall|k: int| n - size <= k < n implies #[trigger] self.history[k]
                    == self.history[k - size] by {
                    assert(last[k - (n - size)] == earlier[k - (n - size)]);
                }
            }
            if forall|k: int|
                n - size <= k < n ==> #[trigger] self.history[k] == self.history[k - size] {
                assert forall|j: int| 0 <= j < size implies last[j] == earlier[j] by {
                    assert(self.history[n - size + j] == self.history[n - size + j - size]);
                }
                assert(last =~= earlier);
            }
        }
    }

    /// The end of the loop in execution counts an iteration of it, also among those in vectors and those
    /// in a row where the loop is executed so. No other program counter counts.
    pub proof fn law_iterated(self, pc: u32)
        ensures
            ({
                let after = self.iterated(pc);
                let ends = self.active_loop matches Some(active) && pc == active.info.end_pc;
                &&& !ends ==> after == self
                &&& ends ==> {
                    let active = self.active_loop.unwrap();
                    &&& after.active_loop == Some(
                        ActiveLoopView {
                            current_iteration: active.current_iteration.wrapping_add(1),
                            ..active
                        },
                    )
                    &&& after.stats.total_iterations == self.stats.total_iterations.wrapping_add(1)
                    &&& after.stats.vectorized_iterations == if active.vectorized {
                        self.stats.vectorized_iterations.wrapping_add(1)
                    } else {
                        self.stats.vectorized_iterations
                    }
                    &&& after.stats.unrolled_iterations == if active.unrolled_iterations > 0 {
                        self.stats.unrolled_iterations.wrapping_add(1)
                    } else {
                        self.stats.unrolled_iterations
                    }
                    &&& after.stats.total_loops == self.stats.total_loops
                    &&& after.stats.unrolled_loops == self.stats.unrolled_loops
                    &&& after.stats.vectorized_loops == self.stats.vectorized_loops
                    &&& after.loops == self.loops
                    &&& after.history == self.history
                }
            }),
    {
    }

    /// Where a stretch repeats, the loop that starts with its first program counter is known afterwards.
    /// A new one starts there, ends with the last program counter and has been seen once; a known one of
    /// the same size has been seen once more, and one of another size stays. One that is believed in is
    /// analyzed and counted. All other loops stay.
    pub proof fn law_noticed(self, size: usize, other: u32)
        requires
            0 < size,
        ensures
            ({
                let after = self.noticed(size as int);
                let n = self.history.len() as int;
                let start = self.history[n - size];
                let known = self.loops.contains_key(start);
                let info = after.loops[start];
                &&& !self.repeats(size as int) ==> after == self
                &&& self.repeats(size as int) ==> {
                    &&& after.loops.dom() == self.loops.dom().insert(start)
                    &&& other != start ==> after.loops.get(other) == self.loops.get(other)
                    &&& after.history == self.history
                    &&& after.active_loop == self.active_loop
                    &&& !known ==> {
                        &&& info.start_pc == start
                        &&& info.end_pc == self.history[n - 1]
                        &&& info.body_size == size
                        &&& info.iteration_count == 1
                        &&& info.confidence == 1
                        &&& info.unroll_factor == 1
                        &&& !info.vectorizable
                        &&& info.induction_vars == Set::<u32>::empty()
                    }
                    &&& known ==> {
                        let old_info = self.loops[start];
                        let same = old_info.body_size == size;
                        &&& info.start_pc == old_info.start_pc
                        &&& info.end_pc == old_info.end_pc
                        &&& info.body_size == old_info.body_size
                        &&& info.induction_vars == old_info.induction_vars
                        &&& info.iteration_count == if same {
                            old_info.iteration_count.wrapping_add(1)
                        } else {
                            old_info.iteration_count
                        }
                        &&& info.confidence == if same {
                            old_info.confidence.wrapping_add(1)
                        } else {
                            old_info.confidence
                        }
                        &&& !same ==> info.unroll_factor == old_info.unroll_factor
                    }
                    &&& info.confidence >= 3 ==> info.vectorizable == (info.body_size >= 4)
                        && info.memory_deps.len() == 0 && info.register_deps.len() == 0
                    &&& after.stats.total_loops == if known {
                        self.stats.total_loops
                    } else {
                        self.stats.total_loops.wrapping_add(1)
                    }
                    &&& after.stats.unrolled_loops == if info.confidence >= 3 && info.unroll_factor
                        > 1 {
                        self.stats.unrolled_loops.wrapping_add(1)
                    } else {
                        self.stats.unrolled_loops
                    }
                    &&& after.stats.vectorized_loops == if info.confidence >= 3
                        && info.vectorizable {
                        self.stats.vectorized_loops.wrapping_add(1)
                    } else {
                        self.stats.vectorized_loops
                    }
                    &&& after.stats.total_iterations == self.stats.total_iterations
                }
            }),
    {
        if self.repeats(size as int) {
            let start = self.history[self.history.len() - size];
            assert(self.noticed(size as int).loops.dom() =~= self.loops.dom().insert(start));
        }
    }

    /// A program counter goes to the end of a history of sixteen, is held against the loop in execution,
    /// and all sizes from four to the length of the history are looked for, one after the other.
    pub proof fn law_recorded_pc(self, pc: u32, size: int)
        requires
            self.history.len() <= 16,
            4 <= size,
        ensures
            ({
                let history = if self.history.len() < 16 {
                    self.history.push(pc)
                } else {
                    self.history.subrange(1, 16).push(pc)
                };
                let told = LoopView { history, ..self }.iterated(pc);
                &&& self.recorded(pc) == told.detected(4)
                &&& self.recorded(pc).history == history
                &&& told.detected(size) == if size <= history.len() {
                    told.noticed(size).detected(size + 1)
                } else {
                    told
                }
            }),
    {
        let history = if self.history.len() < 16 {
            self.history.push(pc)
        } else {
            self.history.subrange(1, 16).push(pc)
        };
        assert(history =~= remembered(self.history, LOOP_HISTORY_SIZE as nat, pc));
        let told = LoopView { history, ..self }.iterated(pc);
        told.lemma_detected_history(4);
    }

    proof fn lemma_detected_history(self, size: int)
        ensures
            self.detected(size).history == self.history,
        decreases self.size_limit() + 1 - size,
    {
        if size <= self.size_limit() {
            self.noticed(size).lemma_detected_history(size + 1);
        }
    }

    /// A loop is given for its start once it has been seen three times. Where one starts at the program
    /// counter, it is in execution from then on, vectorized where it may be, otherwise unrolled where it
    /// is worth it; the end of a loop ends its execution. Anything else is executed one by one and
    /// changes nothing.
    pub proof fn law_plan(self, pc: u32)
        ensures
            ({
                let known = self.loops.contains_key(pc) && self.loops[pc].confidence >= 3;
                let info = self.loops[pc];
                let after = self.planned(pc);
                &&& self.loop_at(pc) == if known {
                    Some(info)
                } else {
                    None
                }
                &&& !known ==> after == self && self.plan(pc) == LoopPlan::Single
                &&& known && pc == info.start_pc ==> {
                    &&& after.active_loop == Some(
                        ActiveLoopView {
                            info,
                            current_iteration: 0,
                            unrolled_iterations: info.unroll_factor,
                            vectorized: info.vectorizable,
                        },
                    )
                    &&& self.plan(pc) == if info.vectorizable {
                        LoopPlan::Vectorized
                    } else if info.unroll_factor > 1 {
                        LoopPlan::Unrolled
                    } else {
                        LoopPlan::Single
                    }
                }
                &&& known && pc != info.start_pc ==> self.plan(pc) == LoopPlan::Single
                &&& known && pc != info.start_pc && pc == info.end_pc ==> after.active_loop is None
                &&& known && pc != info.start_pc && pc != info.end_pc ==> after == self
                &&& after == (LoopView { active_loop: after.active_loop, ..self })
                &&& self.started(info) == (LoopView {
                    active_loop: Some(
                        ActiveLoopView {
                            info,
                            current_iteration: 0,
                            unrolled_iterations: info.unroll_factor,
                            vectorized: info.vectorizable,
                        },
                    ),
                    ..self
                })
                &&& self.ended() == (LoopView { active_loop: None, ..self })
            }),
    {
    }
}

} // verus!
