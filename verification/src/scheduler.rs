//! The instruction scheduler: a window of waiting instructions from which those without open
//! dependencies are issued.
use std::collections::VecDeque;

use vstd::prelude::*;

use crate::isa::{Instruction, Opcode};
#[allow(unused_imports)]
use crate::isa::InstructionView;
use crate::table::Table;

verus! {

/// The number of instructions that may wait.
pub const SCHEDULER_WINDOW_SIZE: usize = 16;

/// The number of instructions that may be in execution.
pub const MAX_ISSUE_WIDTH: usize = 4;

/// The register operations whose dependencies the scheduler follows.
pub open spec fn is_followed(opcode: Opcode) -> bool {
    matches!(opcode,
        Opcode::ADD | Opcode::SUB | Opcode::XOR | Opcode::OR | Opcode::AND | Opcode::SLL
        | Opcode::SRL | Opcode::SRA | Opcode::MUL | Opcode::DIV | Opcode::REM)
}

/// The operation accesses memory.
pub open spec fn is_memory(opcode: Opcode) -> bool {
    opcode.is_load() || opcode.is_store()
}

/// The register that the instruction writes, where the scheduler follows it.
pub open spec fn destination(instruction: InstructionView) -> Option<u32> {
    if is_followed(instruction.opcode) || instruction.opcode.is_load() {
        Some(instruction.op_a)
    } else {
        None
    }
}

/// The instruction reads the register, and the scheduler follows it.
pub open spec fn reads(instruction: InstructionView, register: u32) -> bool {
    if is_followed(instruction.opcode) {
        if !instruction.imm_c {
            register == instruction.op_b || register == instruction.op_c
        } else {
            !instruction.imm_b && register == instruction.op_b
        }
    } else if instruction.opcode.is_load() {
        register == instruction.op_b
    } else if instruction.opcode.is_store() {
        register == instruction.op_a || register == instruction.op_b
    } else {
        false
    }
}

/// The first place from `from` on that is taken.
pub open spec fn first_busy(issue_slots: Seq<bool>, from: int) -> Option<int>
    decreases issue_slots.len() - from,
{
    if from >= issue_slots.len() {
        None
    } else if !issue_slots[from] {
        Some(from)
    } else {
        first_busy(issue_slots, from + 1)
    }
}

/// The state of a scheduler.
#[verifier::ext_equal]
pub ghost struct SchedulerView {
    /// The waiting instructions, the oldest first.
    pub window: Seq<Instruction>,
    /// The known latencies by operation.
    pub latencies: Map<u32, u32>,
    /// The execution places, true where one is free.
    pub issue_slots: Seq<bool>,
    /// The registers that are being written, with the number of instructions that have come in to
    /// write them and have not been executed.
    pub in_flight: Map<u32, u32>,
}

impl SchedulerView {
    /// The number of execution places is right.
    pub open spec fn wf(self) -> bool {
        self.issue_slots.len() == MAX_ISSUE_WIDTH
    }

    /// Nothing waits and nothing is in execution.
    pub open spec fn initial() -> SchedulerView {
        SchedulerView {
            window: Seq::empty(),
            latencies: map![
                Opcode::ADD as u32 => 1u32,
                Opcode::SUB as u32 => 1u32,
                Opcode::XOR as u32 => 1u32,
                Opcode::OR as u32 => 1u32,
                Opcode::AND as u32 => 1u32,
                Opcode::SLL as u32 => 1u32,
                Opcode::SRL as u32 => 1u32,
                Opcode::SRA as u32 => 1u32,
                Opcode::MUL as u32 => 3u32,
                Opcode::DIV as u32 => 10u32,
                Opcode::REM as u32 => 10u32,
            ],
            issue_slots: Seq::new(MAX_ISSUE_WIDTH as nat, |i: int| true),
            in_flight: Map::empty(),
        }
    }

    /// The latency of an operation; one where none is known.
    pub open spec fn latency(self, opcode: Opcode) -> u32 {
        if self.latencies.contains_key(opcode as u32) {
            self.latencies[opcode as u32]
        } else {
            1
        }
    }

    /// A memory operation has another memory operation before it in the window.
    pub open spec fn memory_hazard(self, instruction: Instruction) -> bool {
        &&& is_memory(instruction@.opcode)
        &&& exists|i: int|
            0 <= i < self.window.len() && is_memory((#[trigger] self.window[i])@.opcode) && forall|
                j: int,
            |
                0 <= j <= i ==> #[trigger] self.window[j] != instruction
    }

    /// The number of instructions that are to write a register.
    pub open spec fn writers(self, register: u32) -> u32 {
        if self.in_flight.contains_key(register) {
            self.in_flight[register]
        } else {
            0
        }
    }

    /// The instruction waits itself to write the register.
    pub open spec fn waits_to_write(self, instruction: Instruction, register: u32) -> bool {
        destination(instruction@) == Some(register) && self.window.contains(instruction)
    }

    /// Another instruction is to write a register.
    pub open spec fn written_by_another(self, instruction: Instruction, register: u32) -> bool {
        self.writers(register) > if self.waits_to_write(instruction, register) {
            1int
        } else {
            0int
        }
    }

    /// The instruction has no open dependency: no register that it reads is being written by
    /// another instruction, and no memory operation waits before it.
    pub open spec fn ready(self, instruction: Instruction) -> bool {
        &&& forall|register: u32| #[trigger]
            reads(instruction@, register) ==> !self.written_by_another(instruction, register)
        &&& !self.memory_hazard(instruction)
    }

    /// The oldest waiting instruction from `from` on that is ready.
    pub open spec fn first_ready(self, from: int) -> Option<int>
        decreases self.window.len() - from,
    {
        if from >= self.window.len() {
            None
        } else if self.ready(self.window[from]) {
            Some(from)
        } else {
            self.first_ready(from + 1)
        }
    }

    /// The scheduler after an instruction has come in; a full window takes none.
    pub open spec fn entered(self, instruction: Instruction) -> SchedulerView {
        if self.window.len() < SCHEDULER_WINDOW_SIZE {
            SchedulerView {
                window: self.window.push(instruction),
                in_flight: self.writing(instruction),
                ..self
            }
        } else {
            self
        }
    }

    /// The registers being written once the instruction is one more to write its destination.
    pub open spec fn writing(self, instruction: Instruction) -> Map<u32, u32> {
        match destination(instruction@) {
            Some(register) => self.in_flight.insert(
                register,
                self.writers(register).wrapping_add(1),
            ),
            None => self.in_flight,
        }
    }

    /// The scheduler after the places from `slot` on have been filled, and the instructions that
    /// were issued to them, in order.
    pub open spec fn issued(self, slot: int) -> (SchedulerView, Seq<Instruction>)
        decreases MAX_ISSUE_WIDTH - slot,
    {
        if slot >= MAX_ISSUE_WIDTH {
            (self, Seq::empty())
        } else if self.issue_slots[slot] && self.first_ready(0) is Some {
            let i = self.first_ready(0).unwrap();
            let (after, rest) = SchedulerView {
                window: self.window.remove(i),
                issue_slots: self.issue_slots.update(slot, false),
                ..self
            }.issued(slot + 1);
            (after, seq![self.window[i]] + rest)
        } else {
            self.issued(slot + 1)
        }
    }

    /// The scheduler after an instruction has come in and all that can be issued has been, and
    /// what was issued.
    pub open spec fn scheduled(self, instruction: Instruction) -> (SchedulerView, Seq<
        Instruction,
    >) {
        self.entered(instruction).issued(0)
    }

    /// The scheduler after an instruction has been executed: one place is free again, and one
    /// instruction less is to write its destination.
    pub open spec fn completed(self, instruction: Instruction) -> SchedulerView {
        SchedulerView {
            issue_slots: match first_busy(self.issue_slots, 0) {
                Some(slot) => self.issue_slots.update(slot, true),
                None => self.issue_slots,
            },
            in_flight: match destination(instruction@) {
                Some(register) => if self.writers(register) > 1 {
                    self.in_flight.insert(register, (self.writers(register) - 1) as u32)
                } else {
                    self.in_flight.remove(register)
                },
                None => self.in_flight,
            },
            ..self
        }
    }

    /// Nothing waits and nothing is in execution, whatever the latencies are.
    pub open spec fn idle(self) -> bool {
        &&& self.window.len() == 0
        &&& self.issue_slots == Seq::new(MAX_ISSUE_WIDTH as nat, |i: int| true)
        &&& self.in_flight == Map::<u32, u32>::empty()
    }

    /// The first ready instruction is ready, and none before it is.
    pub proof fn lemma_first_ready(self, from: int)
        requires
            0 <= from,
        ensures
            self.first_ready(from) matches Some(i) ==> {
                &&& from <= i < self.window.len()
                &&& self.ready(self.window[i])
                &&& forall|j: int| from <= j < i ==> !self.ready(#[trigger] self.window[j])
            },
            self.first_ready(from) is None ==> forall|j: int|
                from <= j < self.window.len() ==> !self.ready(#[trigger] self.window[j]),
        decreases self.window.len() - from,
    {
        if from < self.window.len() && !self.ready(self.window[from]) {
            self.lemma_first_ready(from + 1);
        }
    }

    /// An idle scheduler issues an instruction as it comes in and is idle again once the
    /// instruction has been executed.
    pub proof fn law_idle(self, instruction: Instruction)
        requires
            self.idle(),
        ensures
            self.scheduled(instruction).1 == seq![instruction],
            self.scheduled(instruction).0.completed(instruction) == self,
    {
        let entered = self.entered(instruction);
        assert(entered.window[0] == instruction);
        assert(entered.ready(instruction)) by {
            assert(!entered.memory_hazard(instruction));
        }
        assert(entered.first_ready(0) == Some(0int));
        let s1 = SchedulerView {
            window: entered.window.remove(0),
            issue_slots: entered.issue_slots.update(0, false),
            ..entered
        };
        assert(s1.window =~= Seq::empty());
        assert(s1.first_ready(0) is None);
        assert(s1.issued(4) == (s1, Seq::<Instruction>::empty()));
        assert(s1.issued(3) == s1.issued(4));
        assert(s1.issued(2) == s1.issued(3));
        assert(s1.issued(1) == s1.issued(2));
        assert(entered.issued(0).0 == s1);
        assert(entered.issued(0).1 =~= seq![instruction]);
        assert(first_busy(s1.issue_slots, 0) == Some(0int));
        assert(s1.completed(instruction) =~= self);
    }

    /// The window never holds more than its size.
    pub proof fn law_window_bound(self, instruction: Instruction)
        requires
            self.window.len() <= SCHEDULER_WINDOW_SIZE,
        ensures
            self.scheduled(instruction).0.window.len() <= SCHEDULER_WINDOW_SIZE,
            self.completed(instruction).window.len() <= SCHEDULER_WINDOW_SIZE,
    {
        self.entered(instruction).lemma_issued_window(0);
    }

    proof fn lemma_issued_window(self, slot: int)
        ensures
            self.issued(slot).0.window.len() <= self.window.len(),
        decreases MAX_ISSUE_WIDTH - slot,
    {
        if slot < MAX_ISSUE_WIDTH {
            if self.issue_slots[slot] && self.first_ready(0) is Some {
                self.lemma_first_ready(0);
                let i = self.first_ready(0).unwrap();
                SchedulerView {
                    window: self.window.remove(i),
                    issue_slots: self.issue_slots.update(slot, false),
                    ..self
                }.lemma_issued_window(slot + 1);
            } else {
                self.lemma_issued_window(slot + 1);
            }
        }
    }

    /// An instruction is not chosen for issue while another one is to write a register that it
    /// reads.
    pub proof fn law_no_early_read(self, register: u32)
        ensures
            self.first_ready(0) matches Some(i) ==> reads(self.window[i]@, register)
                ==> !self.written_by_another(self.window[i], register),
    {
        self.lemma_first_ready(0);
    }

    /// Memory operations are not reordered: one that is chosen for issue is the oldest memory
    /// operation of the window.
    pub proof fn law_memory_order(self)
        ensures
            self.first_ready(0) matches Some(i) ==> is_memory(self.window[i]@.opcode) ==> forall|
                j: int,
            |
                0 <= j < i ==> !is_memory((#[trigger] self.window[j])@.opcode),
    {
        self.lemma_first_ready(0);
        if let Some(i) = self.first_ready(0) {
            if is_memory(self.window[i]@.opcode) {
                assert forall|j: int| 0 <= j < i implies !is_memory(
                    (#[trigger] self.window[j])@.opcode,
                ) by {
                    if is_memory(self.window[j]@.opcode) {
                        assert(forall|k: int| 0 <= k <= j ==> #[trigger] self.window[k] != self.window[i]);
                        assert(self.memory_hazard(self.window[i]));
                    }
                }
            }
        }
    }
}

/// The memory operations of a list, in order.
pub open spec fn memory_operations(instructions: Seq<Instruction>) -> Seq<Instruction> {
    instructions.filter(|instruction: Instruction| is_memory(instruction@.opcode))
}

/// What a scheduler may be told.
pub ghost enum SchedulerStep {
    /// An instruction comes in.
    Entered(Instruction),
    /// An instruction has been executed.
    Completed(Instruction),
}

/// A scheduler with its past.
pub ghost struct ScheduleView {
    /// The scheduler.
    pub scheduler: SchedulerView,
    /// The instructions that it has taken in, in order.
    pub taken: Seq<Instruction>,
    /// The instructions that it has issued, in order.
    pub issued: Seq<Instruction>,
}

impl ScheduleView {
    /// A scheduler and its past after it has been told a list of things.
    pub open spec fn after_steps(steps: Seq<SchedulerStep>) -> ScheduleView
        decreases steps.len(),
    {
        if steps.len() == 0 {
            ScheduleView {
                scheduler: SchedulerView::initial(),
                taken: Seq::empty(),
                issued: Seq::empty(),
            }
        } else {
            let before = ScheduleView::after_steps(steps.drop_last());
            match steps.last() {
                SchedulerStep::Entered(instruction) => {
                    let (scheduler, issued) = before.scheduler.scheduled(instruction);
                    ScheduleView {
                        scheduler,
                        taken: before.taken + before.scheduler.accepted(instruction),
                        issued: before.issued + issued,
                    }
                },
                SchedulerStep::Completed(instruction) => ScheduleView {
                    scheduler: before.scheduler.completed(instruction),
                    ..before
                },
            }
        }
    }

    /// However a scheduler has come about, what it has taken in has been issued or waits, each once,
    /// and the memory operations have been issued in the order in which they came in; those that
    /// wait come after them.
    pub proof fn law_schedule(steps: Seq<SchedulerStep>)
        ensures
            ({
                let after = ScheduleView::after_steps(steps);
                &&& after.issued.to_multiset().add(after.scheduler.window.to_multiset())
                    == after.taken.to_multiset()
                &&& memory_operations(after.issued) + memory_operations(after.scheduler.window)
                    == memory_operations(after.taken)
            }),
        decreases steps.len(),
    {
        let memory = |instruction: Instruction| is_memory(instruction@.opcode);
        let after = ScheduleView::after_steps(steps);
        if steps.len() == 0 {
            let none = Seq::<Instruction>::empty();
            none.to_multiset_ensures();
            reveal(Seq::filter);
            assert(none.to_multiset().add(none.to_multiset()) =~= none.to_multiset());
            assert(memory_operations(none) =~= none);
        } else {
            let start = steps.drop_last();
            ScheduleView::law_schedule(start);
            let before = ScheduleView::after_steps(start);
            match steps.last() {
                SchedulerStep::Entered(instruction) => {
                    let (scheduler, issued) = before.scheduler.scheduled(instruction);
                    let accepted = before.scheduler.accepted(instruction);
                    let window = before.scheduler.window;
                    before.scheduler.law_scheduled(instruction);
                    vstd::seq_lib::lemma_multiset_commutative(before.issued, issued);
                    vstd::seq_lib::lemma_multiset_commutative(before.taken, accepted);
                    vstd::seq_lib::lemma_multiset_commutative(window, accepted);
                    assert(issued.to_multiset().add(scheduler.window.to_multiset())
                        == window.to_multiset().add(accepted.to_multiset()));
                    assert(before.issued.to_multiset().add(issued.to_multiset()).add(
                        scheduler.window.to_multiset(),
                    ) =~= before.issued.to_multiset().add(
                        issued.to_multiset().add(scheduler.window.to_multiset()),
                    ));
                    assert(before.issued.to_multiset().add(
                        window.to_multiset().add(accepted.to_multiset()),
                    ) =~= before.issued.to_multiset().add(window.to_multiset()).add(
                        accepted.to_multiset(),
                    ));
                    Seq::filter_distributes_over_add(before.issued, issued, memory);
                    Seq::filter_distributes_over_add(before.taken, accepted, memory);
                    Seq::filter_distributes_over_add(window, accepted, memory);
                    assert(memory_operations(after.issued) + memory_operations(scheduler.window)
                        =~= memory_operations(before.issued) + (memory_operations(issued)
                        + memory_operations(scheduler.window)));
                    assert(memory_operations(before.issued) + (memory_operations(window)
                        + memory_operations(accepted)) =~= memory_operations(after.taken));
                },
                SchedulerStep::Completed(instruction) => {},
            }
        }
    }
}

impl SchedulerView {
    /// What the scheduler takes in when an instruction comes: the instruction, or nothing where the
    /// window is full.
    pub open spec fn accepted(self, instruction: Instruction) -> Seq<Instruction> {
        if self.window.len() < SCHEDULER_WINDOW_SIZE {
            seq![instruction]
        } else {
            Seq::empty()
        }
    }

    /// When an instruction comes in, nothing is lost and nothing is made up: what is issued and what
    /// waits afterwards is what has waited before and what has been taken in, each as often. The
    /// memory operations leave in the order in which they came in.
    pub proof fn law_scheduled(self, instruction: Instruction)
        ensures
            ({
                let (after, issued) = self.scheduled(instruction);
                let present = self.window + self.accepted(instruction);
                &&& issued.to_multiset().add(after.window.to_multiset()) == present.to_multiset()
                &&& memory_operations(issued) + memory_operations(after.window)
                    == memory_operations(present)
            }),
    {
        let entered = self.entered(instruction);
        assert(entered.window =~= self.window + self.accepted(instruction));
        entered.lemma_issued(0);
    }

    proof fn lemma_issued(self, slot: int)
        ensures
            ({
                let (after, issued) = self.issued(slot);
                &&& issued.to_multiset().add(after.window.to_multiset())
                    == self.window.to_multiset()
                &&& memory_operations(issued) + memory_operations(after.window)
                    == memory_operations(self.window)
            }),
        decreases MAX_ISSUE_WIDTH - slot,
    {
        let memory = |instruction: Instruction| is_memory(instruction@.opcode);
        let (after, issued) = self.issued(slot);
        if slot >= MAX_ISSUE_WIDTH {
            issued.to_multiset_ensures();
            reveal(Seq::filter);
            assert(issued.to_multiset().add(self.window.to_multiset())
                =~= self.window.to_multiset());
            assert(memory_operations(issued) =~= Seq::empty());
            assert(memory_operations(issued) + memory_operations(self.window)
                =~= memory_operations(self.window));
        } else if self.issue_slots[slot] && self.first_ready(0) is Some {
            self.lemma_first_ready(0);
            self.law_memory_order();
            let i = self.first_ready(0).unwrap();
            let chosen = self.window[i];
            let next = SchedulerView {
                window: self.window.remove(i),
                issue_slots: self.issue_slots.update(slot, false),
                ..self
            };
            next.lemma_issued(slot + 1);
            let rest = next.issued(slot + 1).1;
            vstd::seq_lib::lemma_multiset_commutative(seq![chosen], rest);
            lemma_taken_out(self.window, i);
            assert(issued.to_multiset().add(after.window.to_multiset())
                =~= self.window.to_multiset());
            Seq::filter_distributes_over_add(seq![chosen], rest, memory);
            assert(memory_operations(issued) + memory_operations(after.window)
                =~= memory_operations(seq![chosen]) + (memory_operations(rest)
                + memory_operations(after.window)));
        } else {
            self.lemma_issued(slot + 1);
        }
    }
}

/// An instruction that is taken out of a list, with the rest, makes up the list; where it is the first
/// memory operation, or none, the memory operations stay in order.
proof fn lemma_taken_out(window: Seq<Instruction>, i: int)
    requires
        0 <= i < window.len(),
        is_memory(window[i]@.opcode) ==> forall|j: int|
            0 <= j < i ==> !is_memory((#[trigger] window[j])@.opcode),
    ensures
        seq![window[i]].to_multiset().add(window.remove(i).to_multiset()) == window.to_multiset(),
        memory_operations(seq![window[i]]) + memory_operations(window.remove(i))
            == memory_operations(window),
{
    let memory = |instruction: Instruction| is_memory(instruction@.opcode);
    let front = window.take(i);
    let one = seq![window[i]];
    let back = window.skip(i + 1);
    assert(window =~= front + (one + back));
    assert(window.remove(i) =~= front + back);
    vstd::seq_lib::lemma_multiset_commutative(front, one + back);
    vstd::seq_lib::lemma_multiset_commutative(one, back);
    vstd::seq_lib::lemma_multiset_commutative(front, back);
    assert(one.to_multiset().add(window.remove(i).to_multiset()) =~= window.to_multiset());
    Seq::filter_distributes_over_add(front, one + back, memory);
    Seq::filter_distributes_over_add(one, back, memory);
    Seq::filter_distributes_over_add(front, back, memory);
    if is_memory(window[i]@.opcode) {
        assert forall|j: int| 0 <= j < front.len() implies !is_memory(
            (#[trigger] front[j])@.opcode,
        ) by {
            assert(front[j] == window[j]);
        }
        lemma_no_memory_operations(front);
    } else {
        lemma_no_memory_operations(one);
    }
    assert(memory_operations(one) + (memory_operations(front) + memory_operations(back))
        =~= memory_operations(front) + (memory_operations(one) + memory_operations(back)));
}

proof fn lemma_no_memory_operations(instructions: Seq<Instruction>)
    requires
        forall|j: int|
            0 <= j < instructions.len() ==> !is_memory((#[trigger] instructions[j])@.opcode),
    ensures
        memory_operations(instructions) == Seq::<Instruction>::empty(),
    decreases instructions.len(),
{
    reveal(Seq::filter);
    if instructions.len() > 0 {
        let start = instructions.drop_last();
        assert forall|j: int| 0 <= j < start.len() implies !is_memory(
            (#[trigger] start[j])@.opcode,
        ) by {
            assert(start[j] == instructions[j]);
        }
        lemma_no_memory_operations(start);
        assert(!is_memory(instructions[instructions.len() - 1]@.opcode));
    }
}

/// Instruction scheduler.
pub struct InstructionScheduler {
    window: VecDeque<Instruction>,
    latencies: Table<u32>,
    issue_slots: [bool; MAX_ISSUE_WIDTH],
    in_flight: Table<u32>,
}

impl View for InstructionScheduler {
    type V = SchedulerView;

    closed spec fn view(&self) -> SchedulerView {
        SchedulerView {
            window: self.window@,
            latencies: self.latencies@,
            issue_slots: self.issue_slots@,
            in_flight: self.in_flight@,
        }
    }
}

impl Default for InstructionScheduler {
    fn default() -> (scheduler: InstructionScheduler)
        ensures
            scheduler@ == SchedulerView::initial(),
    {
        let mut latencies: Table<u32> = Table::new();
        latencies.insert(Opcode::ADD as u32, 1);
        latencies.insert(Opcode::SUB as u32, 1);
        latencies.insert(Opcode::XOR as u32, 1);
        latencies.insert(Opcode::OR as u32, 1);
        latencies.insert(Opcode::AND as u32, 1);
        latencies.insert(Opcode::SLL as u32, 1);
        latencies.insert(Opcode::SRL as u32, 1);
        latencies.insert(Opcode::SRA as u32, 1);
        latencies.insert(Opcode::MUL as u32, 3);
        latencies.insert(Opcode::DIV as u32, 10);
        latencies.insert(Opcode::REM as u32, 10);
        let scheduler = InstructionScheduler {
            window: VecDeque::with_capacity(SCHEDULER_WINDOW_SIZE),
            latencies,
            issue_slots: [true; 4],
            in_flight: Table::new(),
        };
        assert(scheduler@ =~= SchedulerView::initial());
        scheduler
    }
}

impl Clone for InstructionScheduler {
    fn clone(&self) -> (scheduler: InstructionScheduler)
        ensures
            scheduler@ == self@,
    {
        let window = self.window.clone();
        assert(window@ =~= self.window@);
        InstructionScheduler {
            window,
            latencies: self.latencies.duplicate(),
            issue_slots: self.issue_slots,
            in_flight: self.in_flight.duplicate(),
        }
    }
}

fn followed(opcode: Opcode) -> (yes: bool)
    ensures
        yes == is_followed(opcode),
{
    matches!(opcode,
        Opcode::ADD | Opcode::SUB | Opcode::XOR | Opcode::OR | Opcode::AND | Opcode::SLL
        | Opcode::SRL | Opcode::SRA | Opcode::MUL | Opcode::DIV | Opcode::REM)
}

fn memory_operation(opcode: Opcode) -> (yes: bool)
    ensures
        yes == is_memory(opcode),
{
    opcode.is_load() || opcode.is_store()
}

fn written_register(instruction: &Instruction) -> (register: Option<u32>)
    ensures
        register == destination(instruction@),
{
    if followed(instruction.opcode()) || instruction.opcode().is_load() {
        Some(instruction.op_a())
    } else {
        None
    }
}

impl InstructionScheduler {
    /// Takes an instruction in, unless the window is full, and issues all that can be issued: the
    /// instructions to execute now, in order.
    pub fn add_instruction(&mut self, instruction: Instruction) -> (ready: Vec<Instruction>)
        ensures
            old(self)@.wf(),
            ready@ == old(self)@.scheduled(instruction).1,
            final(self)@ == old(self)@.scheduled(instruction).0,
            final(self)@.wf(),
    {
        let mut ready: Vec<Instruction> = Vec::new();
        if self.window.len() < SCHEDULER_WINDOW_SIZE {
            self.window.push_back(instruction);
            self.update_dependencies(&instruction);
        }
        let ghost entered = self@;
        assert(entered =~= old(self)@.entered(instruction));
        let mut slot: usize = 0;
        while slot < MAX_ISSUE_WIDTH
            invariant
                slot <= MAX_ISSUE_WIDTH,
                self@.wf(),
                entered.issued(0).0 == self@.issued(slot as int).0,
                entered.issued(0).1 == ready@ + self@.issued(slot as int).1,
            decreases MAX_ISSUE_WIDTH - slot,
        {
            let ghost before = self@;
            let ghost issued_before = ready@;
            if self.issue_slots[slot] {
                if let Some((idx, chosen)) = self.find_ready_instruction() {
                    self.window.remove(idx);
                    self.issue_slots[slot] = false;
                    ready.push(chosen);
                    proof {
                        let after = SchedulerView {
                            window: before.window.remove(idx as int),
                            issue_slots: before.issue_slots.update(slot as int, false),
                            ..before
                        };
                        assert(self@ =~= after);
                        let rest = after.issued(slot + 1).1;
                        assert(issued_before + (seq![chosen] + rest) =~= ready@ + rest);
                    }
                }
            }
            slot = slot + 1;
        }
        assert(ready@ =~= ready@ + Seq::<Instruction>::empty());
        ready
    }

    /// The oldest waiting instruction that is ready, with its place in the window.
    pub fn find_ready_instruction(&self) -> (found: Option<(usize, Instruction)>)
        ensures
            match found {
                Some((idx, instruction)) => {
                    &&& self@.first_ready(0) == Some(idx as int)
                    &&& idx < self@.window.len()
                    &&& instruction == self@.window[idx as int]
                },
                None => self@.first_ready(0) is None,
            },
    {
        let mut idx: usize = 0;
        while idx < self.window.len()
            invariant
                idx <= self.window.len(),
                self@.first_ready(0) == self@.first_ready(idx as int),
            decreases self.window.len() - idx,
        {
            let instruction = self.window[idx];
            if self.can_issue(&instruction) {
                return Some((idx, instruction));
            }
            idx = idx + 1;
        }
        None
    }

    /// Whether the instruction has no open dependency.
    pub fn can_issue(&self, instruction: &Instruction) -> (ready: bool)
        ensures
            ready == self@.ready(*instruction),
    {
        let opcode = instruction.opcode();
        let free = if followed(opcode) {
            if !instruction.imm_c() {
                self.readable(instruction, instruction.op_b()) && self.readable(
                    instruction,
                    instruction.op_c(),
                )
            } else if !instruction.imm_b() {
                self.readable(instruction, instruction.op_b())
            } else {
                true
            }
        } else if opcode.is_load() {
            self.readable(instruction, instruction.op_b())
        } else if opcode.is_store() {
            self.readable(instruction, instruction.op_a()) && self.readable(
                instruction,
                instruction.op_b(),
            )
        } else {
            true
        };
        proof {
            if !free {
                if is_followed(opcode) {
                    assert(reads(instruction@, instruction@.op_b));
                    assert(!instruction@.imm_c ==> reads(instruction@, instruction@.op_c));
                } else {
                    assert(reads(instruction@, instruction@.op_b));
                    assert(opcode.is_store() ==> reads(instruction@, instruction@.op_a));
                }
            }
        }
        free && !self.has_memory_hazard(instruction)
    }

    /// Whether no other instruction is to write the register.
    fn readable(&self, instruction: &Instruction, register: u32) -> (yes: bool)
        ensures
            yes == !self@.written_by_another(*instruction, register),
    {
        let writers: u32 = self.count_writers(register);
        if writers == 0 {
            return true;
        }
        match written_register(instruction) {
            Some(own) => writers == 1 && own == register && self.is_waiting(instruction),
            None => false,
        }
    }

    /// The number of instructions that are to write a register.
    fn count_writers(&self, register: u32) -> (count: u32)
        ensures
            count == self@.writers(register),
    {
        match self.in_flight.get(register) {
            Some(count) => *count,
            None => 0,
        }
    }

    /// Whether an instruction is in the window.
    fn is_waiting(&self, instruction: &Instruction) -> (waiting: bool)
        ensures
            waiting == self@.window.contains(*instruction),
    {
        let mut i: usize = 0;
        while i < self.window.len()
            invariant
                i <= self.window.len(),
                forall|j: int| 0 <= j < i ==> #[trigger] self@.window[j] != *instruction,
            decreases self.window.len() - i,
        {
            let other = self.window[i];
            if other == *instruction {
                assert(self@.window[i as int] == *instruction);
                return true;
            }
            i = i + 1;
        }
        false
    }

    /// Whether a memory operation has another one before it in the window.
    pub fn has_memory_hazard(&self, instruction: &Instruction) -> (hazard: bool)
        ensures
            hazard == self@.memory_hazard(*instruction),
    {
        if !memory_operation(instruction.opcode()) {
            return false;
        }
        let mut i: usize = 0;
        while i < self.window.len()
            invariant
                i <= self.window.len(),
                is_memory(instruction@.opcode),
                forall|j: int|
                    0 <= j < i ==> #[trigger] self@.window[j] != *instruction && !is_memory(
                        self@.window[j]@.opcode,
                    ),
            decreases self.window.len() - i,
        {
            let other = self.window[i];
            if other == *instruction {
                assert(self@.window[i as int] == *instruction);
                return false;
            }
            if memory_operation(other.opcode()) {
                assert(is_memory(self@.window[i as int]@.opcode));
                return true;
            }
            i = i + 1;
        }
        false
    }

    /// Notes that the instruction's destination is being written.
    pub fn update_dependencies(&mut self, instruction: &Instruction)
        ensures
            final(self)@ == (SchedulerView {
                in_flight: old(self)@.writing(*instruction),
                ..old(self)@
            }),
    {
        if let Some(register) = written_register(instruction) {
            let writers: u32 = self.count_writers(register);
            self.in_flight.insert(register, writers.wrapping_add(1));
        }
        assert(self@ =~= (SchedulerView {
            in_flight: old(self)@.writing(*instruction),
            ..old(self)@
        }));
    }

    /// Notes that an instruction has been executed.
    pub fn complete_instruction(&mut self, instruction: &Instruction)
        ensures
            old(self)@.wf(),
            final(self)@ == old(self)@.completed(*instruction),
            final(self)@.wf(),
    {
        let mut slot: usize = 0;
        while slot < MAX_ISSUE_WIDTH && self.issue_slots[slot]
            invariant
                slot <= MAX_ISSUE_WIDTH,
                *self == *old(self),
                self@.wf(),
                first_busy(self@.issue_slots, 0) == first_busy(self@.issue_slots, slot as int),
            decreases MAX_ISSUE_WIDTH - slot,
        {
            slot = slot + 1;
        }
        if slot < MAX_ISSUE_WIDTH {
            self.issue_slots[slot] = true;
        }
        if let Some(register) = written_register(instruction) {
            let writers: u32 = self.count_writers(register);
            if writers > 1 {
                self.in_flight.insert(register, writers - 1);
            } else {
                self.in_flight.remove(register);
            }
        }
        assert(self@ =~= old(self)@.completed(*instruction));
    }

    /// The latency of an operation.
    pub fn get_latency(&self, opcode: Opcode) -> (latency: u32)
        ensures
            latency == self@.latency(opcode),
    {
        match self.latencies.get(opcode as u32) {
            Some(latency) => *latency,
            None => 1,
        }
    }
}

/// The scheduler follows eleven register operations, which write their first operand and read those of the
/// other two that are registers; loads, which write the first and read the second; and stores, which read
/// both. It follows no other instruction.
pub proof fn law_followed(instruction: InstructionView, register: u32)
    ensures
        ({
            let opcode = instruction.opcode;
            let operation = opcode == Opcode::ADD || opcode == Opcode::SUB || opcode == Opcode::XOR
                || opcode == Opcode::OR || opcode == Opcode::AND || opcode == Opcode::SLL || opcode
                == Opcode::SRL || opcode == Opcode::SRA || opcode == Opcode::MUL || opcode
                == Opcode::DIV || opcode == Opcode::REM;
            let load = opcode == Opcode::LB || opcode == Opcode::LBU || opcode == Opcode::LH || opcode
                == Opcode::LHU || opcode == Opcode::LW;
            let store = opcode == Opcode::SB || opcode == Opcode::SH || opcode == Opcode::SW;
            &&& destination(instruction) == if operation || load {
                Some(instruction.op_a)
            } else {
                None
            }
            &&& operation ==> (reads(instruction, register) <==> (register == instruction.op_b && !(
            instruction.imm_b && instruction.imm_c)) || (register == instruction.op_c
                && !instruction.imm_c))
            &&& load ==> (reads(instruction, register) <==> register == instruction.op_b)
            &&& store ==> (reads(instruction, register) <==> register == instruction.op_a || register
                == instruction.op_b)
            &&& !operation && !load && !store ==> !reads(instruction, register)
            &&& is_memory(opcode) <==> load || store
        }),
{
}

impl SchedulerView {
    /// An instruction is ready just where no register that it reads is to be written by another one, and
    /// where, if it accesses memory, no other instruction that does so waits before it.
    pub proof fn law_ready(self, instruction: Instruction)
        ensures
            self.ready(instruction) <==> {
                &&& forall|register: u32| #[trigger]
                    reads(instruction@, register) ==> {
                        let pending = match self.in_flight.get(register) {
                            Some(count) => count as int,
                            None => 0,
                        };
                        let own = destination(instruction@) == Some(register)
                            && self.window.contains(instruction);
                        pending <= if own {
                            1int
                        } else {
                            0
                        }
                    }
                &&& is_memory(instruction@.opcode) ==> forall|i: int|
                    0 <= i < self.window.len() && is_memory(
                        (#[trigger] self.window[i])@.opcode,
                    ) ==> exists|j: int| 0 <= j <= i && #[trigger] self.window[j] == instruction
            },
    {
        let free = forall|register: u32| #[trigger]
            reads(instruction@, register) ==> {
                let pending = match self.in_flight.get(register) {
                    Some(count) => count as int,
                    None => 0,
                };
                let own = destination(instruction@) == Some(register) && self.window.contains(
                    instruction,
                );
                pending <= if own {
                    1int
                } else {
                    0
                }
            };
        assert(free <==> forall|register: u32| #[trigger]
            reads(instruction@, register) ==> !self.written_by_another(instruction, register)) by {
            assert forall|register: u32| #[trigger] reads(instruction@, register) implies (
            !self.written_by_another(instruction, register) <==> {
                let pending = match self.in_flight.get(register) {
                    Some(count) => count as int,
                    None => 0,
                };
                let own = destination(instruction@) == Some(register) && self.window.contains(
                    instruction,
                );
                pending <= if own {
                    1int
                } else {
                    0
                }
            }) by {}
        }
    }

    /// A window of sixteen takes an instruction at its end, and the register that the instruction writes
    /// has one more writer; a full window takes none. The oldest ready instruction goes to each free
    /// place, the first place first, and leaves the window.
    pub proof fn law_issue(self, instruction: Instruction, slot: int)
        requires
            self.issue_slots.len() == 4,
            0 <= slot < 4,
        ensures
            ({
                let entered = self.entered(instruction);
                let register = destination(instruction@);
                &&& self.scheduled(instruction) == entered.issued(0)
                &&& self.window.len() >= 16 ==> entered == self
                &&& self.window.len() < 16 ==> {
                    &&& entered.window == self.window.push(instruction)
                    &&& entered.issue_slots == self.issue_slots
                    &&& register is None ==> entered.in_flight == self.in_flight
                    &&& register matches Some(r) ==> entered.in_flight == self.in_flight.insert(
                        r,
                        match self.in_flight.get(r) {
                            Some(count) => count.wrapping_add(1),
                            None => 1,
                        },
                    )
                }
                &&& self.issued(4) == (self, Seq::<Instruction>::empty())
                &&& !self.issue_slots[slot] ==> self.issued(slot) == self.issued(slot + 1)
                &&& (forall|i: int| 0 <= i < self.window.len() ==> !self.ready(#[trigger] self.window[i]))
                    ==> self.issued(slot) == self.issued(slot + 1)
                &&& forall|i: int|
                    0 <= i < self.window.len() && self.issue_slots[slot] && self.ready(
                        #[trigger] self.window[i],
                    ) && (forall|j: int| 0 <= j < i ==> !self.ready(#[trigger] self.window[j])) ==> {
                        let next = SchedulerView {
                            window: self.window.remove(i),
                            issue_slots: self.issue_slots.update(slot, false),
                            ..self
                        }.issued(slot + 1);
                        self.issued(slot) == (next.0, seq![self.window[i]] + next.1)
                    }
            }),
    {
        self.lemma_first_ready(0);
        assert forall|i: int|
            0 <= i < self.window.len() && self.issue_slots[slot] && self.ready(
                #[trigger] self.window[i],
            ) && (forall|j: int| 0 <= j < i ==> !self.ready(#[trigger] self.window[j])) implies {
            let next = SchedulerView {
                window: self.window.remove(i),
                issue_slots: self.issue_slots.update(slot, false),
                ..self
            }.issued(slot + 1);
            self.issued(slot) == (next.0, seq![self.window[i]] + next.1)
        } by {
            let found = self.first_ready(0).unwrap();
            assert(found == i);
        }
    }

    /// An instruction that has been executed frees the first taken place, and the register that it writes
    /// has one writer less; one without a writer is forgotten. The window stays.
    pub proof fn law_completed(self, instruction: Instruction, i: int)
        requires
            self.issue_slots.len() == 4,
            0 <= i < 4,
        ensures
            ({
                let after = self.completed(instruction);
                &&& after.window == self.window
                &&& after.latencies == self.latencies
                &&& (forall|j: int| 0 <= j < 4 ==> #[trigger] self.issue_slots[j]) ==> after.issue_slots
                    == self.issue_slots
                &&& !self.issue_slots[i] && (forall|j: int| 0 <= j < i ==> #[trigger] self.issue_slots[j])
                    ==> after.issue_slots == self.issue_slots.update(i, true)
                &&& destination(instruction@) is None ==> after.in_flight == self.in_flight
                &&& destination(instruction@) matches Some(r) ==> after.in_flight == match self.in_flight.get(
                    r,
                ) {
                    Some(count) => if count > 1 {
                        self.in_flight.insert(r, (count - 1) as u32)
                    } else {
                        self.in_flight.remove(r)
                    },
                    None => self.in_flight,
                }
            }),
    {
        let slots = self.issue_slots;
        assert(first_busy(slots, 4) is None);
        assert(first_busy(slots, 3) == if !slots[3] { Some(3int) } else { None });
        assert(first_busy(slots, 2) == if !slots[2] { Some(2int) } else { first_busy(slots, 3) });
        assert(first_busy(slots, 1) == if !slots[1] { Some(1int) } else { first_busy(slots, 2) });
        assert(first_busy(slots, 0) == if !slots[0] { Some(0int) } else { first_busy(slots, 1) });
        if forall|j: int| 0 <= j < 4 ==> #[trigger] slots[j] {
            assert(slots[0] && slots[1] && slots[2] && slots[3]);
        }
        if forall|j: int| 0 <= j < i ==> #[trigger] slots[j] {
            assert(i > 0 ==> slots[0]);
            assert(i > 1 ==> slots[1]);
            assert(i > 2 ==> slots[2]);
        }
        if let Some(r) = destination(instruction@) {
            if !self.in_flight.contains_key(r) {
                assert(self.in_flight.remove(r) =~= self.in_flight);
            }
        }
    }

    /// A new scheduler knows that products take three steps and signed quotients and remainders ten, and
    /// takes one step for anything else.
    pub proof fn law_latency(opcode: Opcode)
        ensures
            SchedulerView::initial().latency(opcode) == if opcode == Opcode::MUL {
                3u32
            } else if opcode == Opcode::DIV || opcode == Opcode::REM {
                10
            } else {
                1
            },
            SchedulerView::initial().window.len() == 0,
            SchedulerView::initial().in_flight == Map::<u32, u32>::empty(),
            SchedulerView::initial().issue_slots =~= seq![true, true, true, true],
    {
        assert(SchedulerView::initial().issue_slots =~= seq![true, true, true, true]);
    }
}

} // verus!
