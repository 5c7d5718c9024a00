//! Laws of cycles and of whole runs.
use vstd::prelude::*;

#[allow(unused_imports)]
use crate::alu::alu_result;
#[allow(unused_imports)]
use crate::cycle::{ExecutorView, SetupView};
#[allow(unused_imports)]
use crate::error::ExecutionError;
#[allow(unused_imports)]
use crate::events::{MemoryAccessPosition, MemoryRecord};
use crate::executor::Executor;
#[allow(unused_imports)]
use crate::isa::{Instruction, InstructionView, Opcode, Register};
#[allow(unused_imports)]
use crate::lanes::{aligned_for, loaded, stored};
#[allow(unused_imports)]
use crate::machine::word_address;
#[allow(unused_imports)]
use crate::memory::{first_kept, LogView, MachineView};
#[allow(unused_imports)]
use crate::mode::ExecutorMode;
#[allow(unused_imports)]
use crate::prefetch::PREFETCH_BUFFER_SIZE;
#[allow(unused_imports)]
use crate::state::{PageView, StateView};
#[allow(unused_imports)]
use crate::syscalls::{EXIT_UNCONSTRAINED, WRITE};

verus! {

impl ExecutorView {
    /// Every cached instruction is the one that the program has there.
    pub open spec fn faithful(self, setup: SetupView) -> bool {
        let icache = self.machine.state.icache;
        &&& icache.wf()
        &&& forall|pc: u32| #[trigger]
            icache.cached(pc) is Some ==> {
                &&& setup.program.has_instruction(pc)
                &&& icache.cached(pc) == Some(
                    setup.program.instructions@[setup.program.position(pc)],
                )
            }
    }

    /// The instruction cache is never stale: what is fetched is what the program has at the program
    /// counter, and the cache stays faithful.
    pub proof fn law_fetch(self, setup: SetupView)
        requires
            self.faithful(setup),
            self.fetchable(setup),
        ensures
            setup.program.has_instruction(self.machine.state.pc),
            self.fetched(setup) == setup.program.instructions@[setup.program.position(
                self.machine.state.pc,
            )],
            self.after_fetch(setup).faithful(setup),
    {
        let state = self.machine.state;
        let after = self.after_fetch(setup).machine.state.icache;
        if state.icache.cached(state.pc) is None {
            assert forall|pc: u32| #[trigger] after.cached(pc) is Some implies {
                &&& setup.program.has_instruction(pc)
                &&& after.cached(pc) == Some(
                    setup.program.instructions@[setup.program.position(pc)],
                )
            } by {
                state.icache.law_insert_lookup(state.pc, self.fetched(setup), pc);
            }
        }
    }

    /// Nothing waits in the scheduler, the instruction cache is faithful, and the instructions of
    /// the program are well-formed and make no system calls.
    pub open spec fn plain(self, setup: SetupView) -> bool {
        &&& self.machine.state.scheduler.idle()
        &&& self.faithful(setup)
        &&& forall|i: int|
            0 <= i < setup.program.instructions@.len() ==> {
                let instruction = #[trigger] setup.program.instructions@[i];
                instruction@.opcode != Opcode::ECALL && instruction.well_formed()
            }
    }

    /// The executor when the scheduler has taken an instruction in.
    pub open spec fn scheduled(self, instruction: Instruction) -> ExecutorView {
        let state = self.machine.state;
        self.with(StateView { scheduler: state.scheduler.scheduled(instruction).0, ..state })
    }

    /// What a cycle does that executes the instruction that it has fetched, and no other one.
    #[verifier::opaque]
    pub open spec fn plain_cycle(self, setup: SetupView) -> (
        ExecutorView,
        Result<bool, ExecutionError>,
    ) {
        let instruction = self.noted().fetched(setup);
        let scheduled = self.cycle_begun(setup).scheduled(instruction);
        let (machine, outcome) = scheduled.machine.executed(instruction@);
        let after = ExecutorView { machine, ..scheduled };
        match outcome {
            Ok(_) => after.completed(instruction).cycle_ended(setup),
            Err(error) => (after, Err(error)),
        }
    }

    /// The executor after a number of such cycles.
    pub open spec fn after_cycles(self, setup: SetupView, count: nat) -> ExecutorView
        decreases count,
    {
        if count == 0 {
            self
        } else {
            self.after_cycles(setup, (count - 1) as nat).plain_cycle(setup).0
        }
    }

    /// A cycle of a plain executor executes exactly the instruction at the program counter: there
    /// is one way in which it can go.
    pub proof fn law_plain_cycle(
        self,
        setup: SetupView,
        after: ExecutorView,
        outcome: Result<bool, ExecutionError>,
    )
        requires
            self.plain(setup),
            self.fetchable(setup),
        ensures
            setup.cycled(self, after, outcome) <==> (after, outcome) == self.plain_cycle(setup),
    {
        reveal(ExecutorView::plain_cycle);
        let begun = self.cycle_begun(setup);
        let instruction = self.noted().fetched(setup);
        self.law_fetch(setup);
        assert(instruction == self.fetched(setup));
        assert(instruction@.opcode != Opcode::ECALL);
        assert(begun.machine.state.scheduler == self.machine.state.scheduler);
        self.machine.state.scheduler.law_idle(instruction);
        let list = seq![instruction];
        let scheduled = begun.scheduled(instruction);
        let (machine, executed) = scheduled.machine.executed(instruction@);
        let end = ExecutorView { machine, ..scheduled };
        assert(setup.steps(scheduled, list, 0, scheduled));
        reveal(SetupView::cycle_finished);
        reveal(SetupView::issued);
        reveal(SetupView::stepped);
        if setup.cycled(self, after, outcome) {
            let (last, result) = choose|last: ExecutorView, result: Result<(), ExecutionError>|
                #[trigger]
                setup.issued(begun, instruction, last, result) && match result {
                    Ok(_) => (after, outcome) == last.cycle_ended(setup),
                    Err(error) => after == last && outcome == Err::<bool, ExecutionError>(error),
                };
            setup.lemma_issued(begun, instruction, last, result);
        }
        if (after, outcome) == self.plain_cycle(setup) {
            assert(setup.stepped(scheduled, list[0]@, end, executed));
            if executed is Ok {
                let done = end.completed(instruction);
                assert(setup.steps(scheduled, list, 1, done));
                assert(setup.all_stepped(scheduled, list, done, executed));
                assert(setup.issued(begun, instruction, done, executed));
            } else {
                assert(setup.all_stepped(scheduled, list, end, executed));
                assert(setup.issued(begun, instruction, end, executed));
            }
        }
    }
}

impl SetupView {
    proof fn lemma_issued(
        self,
        begun: ExecutorView,
        instruction: Instruction,
        last: ExecutorView,
        result: Result<(), ExecutionError>,
    )
        requires
            instruction@.opcode != Opcode::ECALL,
            begun.machine.state.scheduler.scheduled(instruction).1 == seq![instruction],
            self.issued(begun, instruction, last, result),
        ensures
            ({
                let scheduled = begun.scheduled(instruction);
                let (machine, executed) = scheduled.machine.executed(instruction@);
                let end = ExecutorView { machine, ..scheduled };
                match result {
                    Ok(_) => executed is Ok && last == end.completed(instruction),
                    Err(_) => executed == result && last == end,
                }
            }),
    {
        reveal(SetupView::issued);
        reveal(SetupView::stepped);
        let list = seq![instruction];
        let scheduled = begun.scheduled(instruction);
        let (machine, executed) = scheduled.machine.executed(instruction@);
        let end = ExecutorView { machine, ..scheduled };
        match result {
            Ok(_) => {
                assert(self.steps(scheduled, list, 1, last));
                let (start, stop, outcome) = choose|
                    start: ExecutorView,
                    stop: ExecutorView,
                    outcome: Result<(), ExecutionError>,
                |
                    {
                        &&& self.steps(scheduled, list, 0, start)
                        &&& #[trigger] self.stepped(start, list[0]@, stop, outcome)
                        &&& outcome is Ok
                        &&& last == stop.completed(list[0])
                    };
                assert(start == scheduled);
            },
            Err(_) => {
                let (count, start) = choose|count: nat, start: ExecutorView|
                    {
                        &&& count < list.len()
                        &&& #[trigger] self.steps(scheduled, list, count, start)
                        &&& self.stepped(start, list[count as int]@, last, result)
                    };
                assert(count == 0);
                assert(start == scheduled);
            },
        }
    }
}

impl ExecutorView {
    /// A cycle of a plain executor that does not fail leaves it plain, and counts one more
    /// instruction; unless it ends the program, there is a next instruction.
    pub proof fn law_plain_kept(self, setup: SetupView)
        requires
            self.plain(setup),
            self.fetchable(setup),
            self.plain_cycle(setup).1 is Ok,
        ensures
            self.plain_cycle(setup).0.plain(setup),
            self.plain_cycle(setup).0.machine.state.global_clk
                == self.machine.state.global_clk.wrapping_add(1),
            self.plain_cycle(setup).1 == Ok::<bool, ExecutionError>(false)
                ==> self.plain_cycle(setup).0.fetchable(setup),
    {
        reveal(ExecutorView::plain_cycle);
        let instruction = self.noted().fetched(setup);
        let begun = self.cycle_begun(setup);
        self.noted().law_fetch(setup);
        assert(begun.faithful(setup));
        self.machine.state.scheduler.law_idle(instruction);
        let scheduled = begun.scheduled(instruction);
        scheduled.machine.law_untouched(instruction@);
        let after = self.plain_cycle(setup).0;
        assert(after.machine.state.icache == begun.machine.state.icache);
        assert(after.faithful(setup));
    }

    /// The machine that the instruction of a cycle finds.
    pub open spec fn before_execution(self, setup: SetupView) -> MachineView {
        let instruction = self.noted().fetched(setup);
        self.cycle_begun(setup).scheduled(instruction).machine
    }

    /// A cycle of a plain executor does to registers, words, the program counter and the log what
    /// the instruction at the program counter does, and nothing else; it fails where the instruction
    /// fails.
    pub proof fn law_cycle_effect(self, setup: SetupView)
        requires
            self.plain(setup),
            self.fetchable(setup),
        ensures
            ({
                let instruction = setup.program.instructions@[setup.program.position(
                    self.machine.state.pc,
                )];
                let found = self.before_execution(setup);
                let (left, executed) = found.executed(instruction@);
                let (after, outcome) = self.plain_cycle(setup);
                &&& found.state.registers == self.machine.state.registers
                &&& found.state.allocator == self.machine.state.allocator
                &&& found.state.words_as(self.machine.state)
                &&& found.state.pc == self.machine.state.pc
                &&& found.state.branch == self.machine.state.branch
                &&& found.log == self.machine.log
                &&& found.sound() == self.machine.sound()
                &&& after.machine.state.registers == left.state.registers
                &&& after.machine.state.words_as(left.state)
                &&& after.machine.state.pc == left.state.pc
                &&& after.machine.log == left.log
                &&& executed matches Err(error) ==> outcome == Err::<bool, ExecutionError>(error)
                &&& executed is Ok && setup.max_cycles is None && !self.machine.log.unconstrained
                    ==> outcome == Ok::<bool, ExecutionError>(
                    setup.program.ends_at(left.state.pc),
                )
            }),
    {
        reveal(ExecutorView::plain_cycle);
        self.law_fetch(setup);
        let instruction = self.noted().fetched(setup);
        assert(instruction == self.fetched(setup));
        let found = self.before_execution(setup);
        found.law_untouched(instruction@);
        assert(found.state.words_as(self.machine.state));
        assert(found.state.coherent() == self.machine.state.coherent()) by {
            assert(found.state.prefetch == self.machine.state.prefetch);
            assert(self.machine.state.words_as(found.state));
        }
        let left = found.executed(instruction@).0;
        let after = self.plain_cycle(setup).0;
        assert(after.machine.state.words_as(left.state));
    }

    /// The first `count` cycles end neither the program nor fail.
    pub open spec fn goes_on(self, setup: SetupView, count: nat) -> bool {
        forall|k: nat|
            k < count ==> #[trigger] self.after_cycles(setup, k).plain_cycle(setup).1 == Ok::<
                bool,
                ExecutionError,
            >(false)
    }

    /// A plain executor goes on in one way only, and its clock counts its cycles.
    pub proof fn law_plain_run(self, setup: SetupView, count: nat, after: ExecutorView)
        requires
            self.plain(setup),
            self.fetchable(setup),
            setup.cycles(self, count, after),
        ensures
            self.goes_on(setup, count),
            after == self.after_cycles(setup, count),
            after.plain(setup),
            after.fetchable(setup),
            self.machine.state.global_clk + count <= u64::MAX ==> after.machine.state.global_clk
                == self.machine.state.global_clk + count,
        decreases count,
    {
        if count > 0 {
            let before = (count - 1) as nat;
            let middle = choose|middle: ExecutorView|
                {
                    &&& setup.cycles(self, before, middle)
                    &&& #[trigger] setup.cycled(middle, after, Ok(false))
                };
            self.law_plain_run(setup, before, middle);
            middle.law_plain_cycle(setup, after, Ok(false));
            middle.law_plain_kept(setup);
        }
    }

    /// A run of a plain executor is determined: there is one state that it can end in, and one
    /// outcome.
    pub proof fn law_determined(
        self,
        setup: SetupView,
        after: ExecutorView,
        outcome: Result<bool, ExecutionError>,
        other: ExecutorView,
        other_outcome: Result<bool, ExecutionError>,
    )
        requires
            self.plain(setup),
            self.fetchable(setup),
            setup.completed(self, after, outcome),
            setup.completed(self, other, other_outcome),
        ensures
            after == other,
            outcome == other_outcome,
    {
        let count = self.law_completed(setup, after, outcome);
        let other_count = self.law_completed(setup, other, other_outcome);
        if count < other_count {
            assert(self.after_cycles(setup, count).plain_cycle(setup).1 == Ok::<
                bool,
                ExecutionError,
            >(false));
        }
        if other_count < count {
            assert(self.after_cycles(setup, other_count).plain_cycle(setup).1 == Ok::<
                bool,
                ExecutionError,
            >(false));
        }
    }

    /// A run of a plain executor goes on for a number of cycles, and the next one ends the program or
    /// fails; or there are as many cycles as can be counted.
    pub proof fn law_completed(
        self,
        setup: SetupView,
        after: ExecutorView,
        outcome: Result<bool, ExecutionError>,
    ) -> (count: nat)
        requires
            self.plain(setup),
            self.fetchable(setup),
            setup.completed(self, after, outcome),
        ensures
            count <= u64::MAX,
            self.goes_on(setup, count),
            setup.cycles(self, count, self.after_cycles(setup, count)),
            count < u64::MAX ==> {
                &&& (after, outcome) == self.after_cycles(setup, count).plain_cycle(setup)
                &&& outcome != Ok::<bool, ExecutionError>(false)
            },
            count == u64::MAX ==> {
                &&& after == self.after_cycles(setup, count)
                &&& outcome == Err::<bool, ExecutionError>(
                    ExecutionError::ExceededCycleLimit(u64::MAX),
                )
            },
    {
        if exists|count: nat, last: ExecutorView|
            {
                &&& count < u64::MAX
                &&& #[trigger] setup.cycles(self, count, last)
                &&& setup.cycled(last, after, outcome)
                &&& outcome != Ok::<bool, ExecutionError>(false)
            } {
            let (count, last) = choose|count: nat, last: ExecutorView|
                {
                    &&& count < u64::MAX
                    &&& #[trigger] setup.cycles(self, count, last)
                    &&& setup.cycled(last, after, outcome)
                    &&& outcome != Ok::<bool, ExecutionError>(false)
                };
            self.law_plain_run(setup, count, last);
            last.law_plain_cycle(setup, after, outcome);
            count
        } else {
            self.law_plain_run(setup, u64::MAX as nat, after);
            u64::MAX as nat
        }
    }

    /// A run of a plain executor with a limit takes no more cycles than the limit allows: as long
    /// as it goes on, its clock is below the limit.
    pub proof fn law_cycle_limit(self, setup: SetupView, count: nat, after: ExecutorView)
        requires
            self.plain(setup),
            self.fetchable(setup),
            setup.max_cycles is Some,
            self.machine.state.global_clk < setup.max_cycles.unwrap(),
            setup.cycles(self, count, after),
        ensures
            self.machine.state.global_clk + count < setup.max_cycles.unwrap(),
            after.machine.state.global_clk == self.machine.state.global_clk + count,
        decreases count,
    {
        if count > 0 {
            let before = (count - 1) as nat;
            let middle = choose|middle: ExecutorView|
                {
                    &&& setup.cycles(self, before, middle)
                    &&& #[trigger] setup.cycled(middle, after, Ok(false))
                };
            self.law_cycle_limit(setup, before, middle);
            self.law_plain_run(setup, before, middle);
            middle.law_plain_cycle(setup, after, Ok(false));
            middle.law_plain_kept(setup);
            setup.law_cycle_outcome(middle, after, Ok(false));
        }
    }
}

impl SetupView {
    /// A cycle that does not fail says whether the program has ended; it ends outside unconstrained
    /// mode only, and stays below the limit of cycles.
    pub proof fn law_cycle_outcome(
        self,
        before: ExecutorView,
        after: ExecutorView,
        outcome: Result<bool, ExecutionError>,
    )
        requires
            self.cycled(before, after, outcome),
        ensures
            outcome matches Ok(done) ==> {
                &&& done == self.program.ends_at(after.machine.state.pc)
                &&& done ==> !after.machine.log.unconstrained
                &&& self.max_cycles matches Some(limit) ==> after.machine.state.global_clk < limit
            },
    {
        reveal(SetupView::cycle_finished);
    }
}

impl MachineView {
    /// The checkpoint has the records that the words had in an earlier state, none where there was
    /// none; the words that it does not have are as they were, on their page or in the sparse memory.
    pub open spec fn remembers(self, base: StateView) -> bool {
        let touched = self.log.memory_checkpoint;
        &&& self.log.checkpointing()
        &&& forall|addr: u32| #[trigger]
            touched.contains_key(addr) ==> touched[addr] == base.record_at(addr)
        &&& forall|addr: u32|
            !touched.contains_key(addr) ==> #[trigger] self.state.record_at(addr)
                == base.record_at(addr)
        &&& forall|addr: u32|
            !touched.contains_key(addr) ==> #[trigger] self.state.memory.get(addr)
                == base.memory.get(addr)
    }

    /// Every access to memory lets the checkpoint have the records of the earlier state.
    pub proof fn law_remembers(
        self,
        base: StateView,
        addr: u32,
        value: u32,
        shard: u32,
        timestamp: u32,
        own: bool,
    )
        requires
            self.sound(),
            self.remembers(base),
        ensures
            self.looked_at(addr).remembers(base),
            self.read(addr, shard, timestamp, own).remembers(base),
            self.wrote(addr, value, shard, timestamp, own).remembers(base),
    {
        self.lemma_look_remembers(base, addr);
        let read = self.read(addr, shard, timestamp, own);
        self.law_read(addr, shard, timestamp, own, addr);
        assert forall|other: u32| other != addr implies #[trigger] read.state.record_at(other)
            == self.state.record_at(other) by {
            self.law_read(addr, shard, timestamp, own, other);
        }
        assert(self.looked_up(addr).state.memory == self.state.memory);
        assert(self.looked_up(addr).log.memory_checkpoint == self.log.memory_checkpoint);
        self.lemma_touched(read, base, addr);
        let wrote = self.wrote(addr, value, shard, timestamp, own);
        assert forall|other: u32| other != addr implies #[trigger] wrote.state.record_at(other)
            == self.state.record_at(other) by {
            self.law_write(addr, value, shard, timestamp, own, other);
        }
        self.lemma_touched(wrote, base, addr);
    }

    proof fn lemma_look_remembers(self, base: StateView, addr: u32)
        requires
            self.sound(),
            self.remembers(base),
        ensures
            self.looked_at(addr).remembers(base),
    {
        let looked = self.looked_at(addr);
        self.lemma_look_frame(addr);
        assert(self.state.record_at(addr) == self.state.record_at(addr));
        assert forall|other: u32|
            !looked.log.memory_checkpoint.contains_key(other) implies #[trigger] looked.state.record_at(
            other,
        ) == base.record_at(other) by {
            assert(looked.state.record_at(other) == self.state.record_at(other));
        }
        assert forall|other: u32|
            !looked.log.memory_checkpoint.contains_key(other) implies #[trigger] looked.state.memory.get(
            other,
        ) == base.memory.get(other) by {
            assert(self.state.memory.get(other) == base.memory.get(other));
        }
    }

    /// An access that changes at most one word and keeps its first record lets the checkpoint have
    /// the records of the earlier state.
    proof fn lemma_touched(self, after: MachineView, base: StateView, addr: u32)
        requires
            self.remembers(base),
            after.log.checkpointing(),
            after.log.memory_checkpoint == first_kept(
                self.log.memory_checkpoint,
                addr,
                self.state.record_at(addr),
            ),
            forall|other: u32|
                other != addr ==> #[trigger] after.state.record_at(other) == self.state.record_at(
                    other,
                ),
            forall|other: u32|
                other != addr ==> #[trigger] after.state.memory.get(other)
                    == self.state.memory.get(other),
        ensures
            after.remembers(base),
    {
        assert(self.state.record_at(addr) == self.state.record_at(addr));
        assert forall|other: u32|
            !after.log.memory_checkpoint.contains_key(other) implies #[trigger] after.state.record_at(
            other,
        ) == base.record_at(other) by {
            assert(self.state.record_at(other) == base.record_at(other));
        }
        assert forall|other: u32|
            !after.log.memory_checkpoint.contains_key(other) implies #[trigger] after.state.memory.get(
            other,
        ) == base.memory.get(other) by {
            assert(self.state.memory.get(other) == base.memory.get(other));
        }
    }

    proof fn lemma_same_memory(self, other: MachineView, base: StateView)
        requires
            self.remembers(base),
            other.log == self.log,
            other.state.pages == self.state.pages,
            other.state.page_cache == self.state.page_cache,
            other.state.memory == self.state.memory,
        ensures
            other.remembers(base),
    {
        assert forall|addr: u32|
            !other.log.memory_checkpoint.contains_key(addr) implies #[trigger] other.state.record_at(
            addr,
        ) == base.record_at(addr) by {
            assert(other.state.record_at(addr) == self.state.record_at(addr));
        }
    }

    proof fn lemma_executed_remembers(self, base: StateView, instruction: InstructionView)
        requires
            instruction.decodable(),
            self.sound(),
            self.state.regular(3),
            self.remembers(base),
        ensures
            self.executed(instruction).0.remembers(base),
    {
        let machine = self.with(self.state.predicted());
        self.lemma_same_memory(machine, base);
        let opcode = instruction.opcode;
        let after = self.executed(instruction).0;
        if opcode.is_load() {
            machine.lemma_load_remembers(base, instruction);
            let (read, addr, word) = machine.load_operands(instruction);
            machine.lemma_load(instruction, 3);
            if aligned_for(opcode, addr) {
                let a = loaded(opcode, word, addr);
                read.state.lemma_written(Register::from_u32(instruction.op_a), a, 2);
            }
            read.lemma_same_memory(after, base);
        } else if opcode.is_store() {
            machine.lemma_store_remembers(base, instruction);
            let (looked, a, addr, word) = machine.store_operands(instruction);
            machine.lemma_store(instruction, 3);
            if aligned_for(opcode, addr) {
                let shard = looked.state.current_shard;
                let time = looked.state.time(MemoryAccessPosition::Memory);
                let value = stored(opcode, word, a, addr);
                looked.law_remembers(base, word_address(addr), value, shard, time, true);
                looked.wrote(word_address(addr), value, shard, time, true).lemma_same_memory(
                    after,
                    base,
                );
            } else {
                looked.lemma_same_memory(after, base);
            }
        } else {
            self.lemma_registers_only(instruction);
            self.lemma_same_memory(after, base);
        }
    }

    proof fn lemma_registers_only(self, instruction: InstructionView)
        requires
            instruction.decodable(),
            !instruction.opcode.is_load(),
            !instruction.opcode.is_store(),
            self.state.regular(3),
        ensures
            ({
                let after = self.executed(instruction).0;
                &&& after.log == self.log
                &&& after.state.memory == self.state.memory
                &&& after.state.pages == self.state.pages
                &&& after.state.page_cache == self.state.page_cache
            }),
    {
        let machine = self.with(self.state.predicted());
        let rd = Register::from_u32(instruction.op_a);
        let rs1 = Register::from_u32(instruction.op_b);
        let opcode = instruction.opcode;
        if opcode.is_alu() {
            let (fetched, b, c) = machine.state.alu_operands(instruction);
            if !instruction.imm_c {
                let rs2 = Register::from_u32(instruction.op_c);
                machine.state.lemma_used(rs2, 3);
                machine.state.register_used(rs2).lemma_used(rs1, 2);
            } else if !instruction.imm_b {
                machine.state.lemma_used(rs1, 3);
            }
            assert(fetched.regular(1));
            fetched.lemma_written(rd, alu_result(opcode, b, c), 1);
        } else if opcode == Opcode::JAL {
            machine.state.lemma_written(rd, self.state.pc.wrapping_add(4), 3);
        } else if opcode == Opcode::JALR {
            machine.state.lemma_used(rs1, 3);
            machine.state.register_used(rs1).lemma_written(rd, self.state.pc.wrapping_add(4), 2);
        } else if opcode == Opcode::AUIPC {
            machine.state.lemma_written(rd, self.state.pc.wrapping_add(instruction.op_b), 3);
        }
    }

    proof fn lemma_load_remembers(self, base: StateView, instruction: InstructionView)
        requires
            self.sound(),
            self.remembers(base),
        ensures
            self.load_operands(instruction).0.remembers(base),
    {
        reveal(MachineView::load_operands);
        let rs1 = Register::from_u32(instruction.op_b);
        let fetched = self.with(self.state.register_used(rs1));
        self.lemma_same_memory(fetched, base);
        assert(fetched.sound());
        let addr = word_address(self.load_operands(instruction).1);
        let shard = fetched.state.current_shard;
        let time = fetched.state.time(MemoryAccessPosition::Memory);
        fetched.law_remembers(base, addr, 0, shard, time, true);
    }

    proof fn lemma_store_remembers(self, base: StateView, instruction: InstructionView)
        requires
            self.sound(),
            self.remembers(base),
        ensures
            self.store_operands(instruction).0.remembers(base),
    {
        reveal(MachineView::store_operands);
        let fetched = self.with(self.state.source_values(instruction).0);
        self.lemma_same_memory(fetched, base);
        assert(fetched.sound());
        let addr = word_address(self.store_operands(instruction).2);
        fetched.law_remembers(base, addr, 0, 0, 0, true);
    }
}

impl ExecutorView {
    proof fn lemma_cycle_machine(self, setup: SetupView, base: StateView, room: int)
        requires
            self.plain(setup),
            self.fetchable(setup),
            self.plain_cycle(setup).1 is Ok,
            self.machine.sound(),
            self.machine.state.regular(room),
            room >= 3,
        ensures
            self.plain_cycle(setup).0.machine.sound(),
            self.plain_cycle(setup).0.machine.state.regular(room - 3),
            self.machine.remembers(base) ==> self.plain_cycle(setup).0.machine.remembers(base),
    {
        reveal(ExecutorView::plain_cycle);
        let instruction = self.noted().fetched(setup);
        self.noted().law_fetch(setup);
        assert(instruction.well_formed());
        let scheduled = self.cycle_begun(setup).scheduled(instruction).machine;
        assert(scheduled.sound());
        scheduled.law_kept(instruction@, room);
        let executed = scheduled.executed(instruction@).0;
        let after = self.plain_cycle(setup).0.machine;
        assert(after.sound());
        if self.machine.remembers(base) {
            self.machine.lemma_same_memory(scheduled, base);
            scheduled.lemma_executed_remembers(base, instruction@);
            executed.lemma_same_memory(after, base);
        }
    }

    /// A run of a plain executor keeps the machine sound, registers in their places and register
    /// zero at zero, as long as no access counter overflows.
    pub proof fn law_run_kept(self, setup: SetupView, count: nat, after: ExecutorView, room: int)
        requires
            self.plain(setup),
            self.fetchable(setup),
            self.machine.sound(),
            self.machine.state.regular(3 * count + room),
            room >= 0,
            setup.cycles(self, count, after),
        ensures
            after.machine.sound(),
            after.machine.state.regular(room),
    {
        self.lemma_run_machine(setup, self.machine.state, count, after, room);
    }

    proof fn lemma_run_machine(
        self,
        setup: SetupView,
        base: StateView,
        count: nat,
        after: ExecutorView,
        room: int,
    )
        requires
            self.plain(setup),
            self.fetchable(setup),
            self.machine.sound(),
            self.machine.state.regular(3 * count + room),
            room >= 0,
            setup.cycles(self, count, after),
        ensures
            after.machine.sound(),
            after.machine.state.regular(room),
            self.machine.remembers(base) ==> after.machine.remembers(base),
        decreases count,
    {
        if count > 0 {
            let before = (count - 1) as nat;
            let middle = choose|middle: ExecutorView|
                {
                    &&& setup.cycles(self, before, middle)
                    &&& #[trigger] setup.cycled(middle, after, Ok(false))
                };
            self.lemma_run_machine(setup, base, before, middle, room + 3);
            self.law_plain_run(setup, before, middle);
            middle.law_plain_cycle(setup, after, Ok(false));
            middle.lemma_cycle_machine(setup, base, room + 3);
        }
    }

    /// A checkpoint gives back the memory from before the batch, in pages and out of them: after a run
    /// that has begun with an empty checkpoint, the records of the checkpoint are those that the words
    /// had at the beginning, and none for a word that had none.
    pub proof fn law_checkpoint(
        self,
        setup: SetupView,
        count: nat,
        last: ExecutorView,
        after: ExecutorView,
        done: bool,
        addr: u32,
    )
        requires
            self.plain(setup),
            self.fetchable(setup),
            self.machine.sound(),
            self.machine.state.regular((3 * count + 3) as int),
            self.machine.log.checkpointing(),
            self.machine.log.memory_checkpoint == Map::<u32, Option<MemoryRecord>>::empty(),
            setup.cycles(self, count, last),
            setup.cycled(last, after, Ok(done)),
        ensures
            ({
                let before = self.machine.state;
                let found = after.machine.checkpoint(before, true).record_at(addr);
                found == before.record_at(addr)
            }),
    {
        let base = self.machine.state;
        assert(self.machine.remembers(base));
        self.lemma_run_machine(setup, base, count, last, 3);
        self.law_plain_run(setup, count, last);
        last.law_plain_cycle(setup, after, Ok(done));
        last.lemma_cycle_machine(setup, base, 3);
        let touched = after.machine.log.memory_checkpoint;
        assert(after.machine.state.record_at(addr) == after.machine.state.record_at(addr));
        assert(after.machine.state.memory.get(addr) == after.machine.state.memory.get(addr));
        let found = after.machine.checkpoint(base, true);
        assert(found.memory.get(addr) == if touched.contains_key(addr) {
            base.record_at(addr)
        } else {
            base.memory.get(addr)
        });
    }
}

impl ExecutorView {
    /// The executor at the start of a batch that is to be checkpointed, with the program loaded.
    pub open spec fn batch_start(self, setup: SetupView) -> ExecutorView {
        ExecutorView { machine: self.machine.batch_begun(), ..self }.ready_to_run(setup)
    }

    /// The checkpoint of a batch has the memory from before the batch, no more and no less, where the
    /// batch does not begin with loading an image: every word has its record, and where no pages are
    /// in use the sparse memory is the same. The batch may take up to `count` cycles, as many as the
    /// access counters of registers have room for.
    pub proof fn law_batch(
        self,
        setup: SetupView,
        after: ExecutorView,
        checkpoint: StateView,
        done: bool,
        count: nat,
    )
        requires
            self.plain(setup),
            self.fetchable(setup),
            self.machine.sound(),
            self.machine.state.global_clk > 0 || setup.program.memory_image@ == Map::<
                u32,
                u32,
            >::empty(),
            self.machine.state.regular(3 * count as int),
            !self.batch_start(setup).goes_on(setup, count),
            setup.checkpointed(self, after, Ok((checkpoint, done))),
        ensures
            checkpoint.words_as(self.machine.state),
            self.machine.state.pages == Map::<u32, PageView>::empty() ==> checkpoint.memory
                == self.machine.state.memory,
            done,
    {
        let begun = ExecutorView { machine: self.machine.batch_begun(), ..self };
        let start = self.batch_start(setup);
        let image = setup.program.memory_image@;
        let (last, executed) = choose|last: ExecutorView, executed: Result<bool, ExecutionError>|
            #[trigger]
            setup.executed(begun, last, executed) && match executed {
                Ok(ended) => {
                    &&& after == (ExecutorView { machine: last.machine.batch_ended(), ..last })
                    &&& Ok::<(StateView, bool), ExecutionError>((checkpoint, done)) == Ok::<
                        (StateView, bool),
                        ExecutionError,
                    >((last.machine.checkpoint(self.machine.state, ended), ended))
                },
                Err(error) => {
                    &&& after == last
                    &&& Ok::<(StateView, bool), ExecutionError>((checkpoint, done)) == Err::<
                        (StateView, bool),
                        ExecutionError,
                    >(error)
                },
            };
        assert(executed == Ok::<bool, ExecutionError>(done));
        if self.machine.state.global_clk == 0 {
            assert(self.machine.state.loaded(image).memory =~= self.machine.state.memory);
            assert(self.machine.state.loaded(image).prefetch =~= self.machine.state.prefetch);
        }
        assert(start.machine.state.memory == self.machine.state.memory);
        assert(start.plain(setup));
        assert(start.machine.sound()) by {
            assert(start.machine.state.words_as(self.machine.state));
            assert(start.machine.state.prefetch == self.machine.state.prefetch);
        }
        let taken = start.law_completed(setup, last, executed);
        if taken >= count {
            assert(start.goes_on(setup, count));
        }
        let before_last = start.after_cycles(setup, taken);
        start.law_plain_run(setup, taken, before_last);
        before_last.law_plain_cycle(setup, last, executed);
        assert(start.machine.state.regular((3 * taken + 3) as int));
        let found = last.machine.checkpoint(start.machine.state, true);
        assert(checkpoint.pages == self.machine.state.pages);
        assert forall|addr: u32| #[trigger] checkpoint.record_at(addr)
            == self.machine.state.record_at(addr) by {
            start.law_checkpoint(setup, taken, before_last, last, done, addr);
            assert(found.record_at(addr) == checkpoint.record_at(addr));
            assert(start.machine.state.record_at(addr) == self.machine.state.record_at(addr));
        }
        if self.machine.state.pages == Map::<u32, PageView>::empty() {
            assert forall|addr: u32| #[trigger]
                checkpoint.memory.contains_key(addr) == self.machine.state.memory.contains_key(addr)
                    && (checkpoint.memory.contains_key(addr) ==> checkpoint.memory[addr]
                    == self.machine.state.memory[addr]) by {
                assert(checkpoint.record_at(addr) == self.machine.state.record_at(addr));
            }
            assert forall|addr: u32| checkpoint.memory.dom().contains(addr)
                == self.machine.state.memory.dom().contains(addr) by {
                assert(checkpoint.memory.contains_key(addr)
                    == self.machine.state.memory.contains_key(addr));
            }
            assert(checkpoint.memory =~= self.machine.state.memory);
        }
    }
}

impl StateView {
    /// A loaded image is what memory holds, where no page lies over it; all other words stay. The
    /// prefetch buffer stays current.
    pub proof fn law_loaded(self, image: Map<u32, u32>, addr: u32)
        ensures
            self.loaded(image).record_at(addr) == if image.contains_key(addr) && !self.shadowed(
                addr,
            ) {
                Some(MemoryRecord::untouched(image[addr]))
            } else {
                self.record_at(addr)
            },
            self.paged() ==> self.loaded(image).paged(),
            self.coherent() ==> self.loaded(image).coherent(),
    {
        let after = self.loaded(image);
        if self.coherent() {
            assert forall|i: int|
                0 <= i < PREFETCH_BUFFER_SIZE && #[trigger] after.prefetch.valid[i] implies after.record_at(
                after.prefetch.entries[i].0,
            ) == Some(after.prefetch.entries[i].1) by {
                assert(self.prefetch.valid[i]);
                assert(self.prefetch.hit(i, self.prefetch.entries[i].0));
            }
        }
    }
}

impl ExecutorView {
    /// A new executor of a program that makes no system calls is plain and sound, its registers are
    /// in their places, and it stays so when the program is loaded.
    pub proof fn law_initial(self, setup: SetupView)
        requires
            self.machine.state == StateView::initial(setup.program.pc_start),
            forall|i: int|
                0 <= i < setup.program.instructions@.len() ==> {
                    let instruction = #[trigger] setup.program.instructions@[i];
                    instruction@.opcode != Opcode::ECALL && instruction.well_formed()
                },
        ensures
            self.plain(setup),
            self.machine.sound(),
            self.machine.state.regular(u32::MAX as int),
            self.ready_to_run(setup).plain(setup),
            self.ready_to_run(setup).machine.sound(),
            self.ready_to_run(setup).machine.state.regular(u32::MAX as int),
            self.fetchable(setup) ==> self.ready_to_run(setup).fetchable(setup),
    {
        let image = setup.program.memory_image@;
        self.machine.state.allocator.law_unspilled(Register::X0, 0, 0);
        assert(self.machine.sound());
        self.machine.state.law_loaded(image, 0);
        let started = self.machine.state.started(image);
        let loaded = self.machine.state.loaded(image);
        assert(started.coherent()) by {
            assert forall|i: int|
                0 <= i < PREFETCH_BUFFER_SIZE && #[trigger] started.prefetch.valid[i] implies started.record_at(
                started.prefetch.entries[i].0,
            ) == Some(started.prefetch.entries[i].1) by {
                assert(loaded.prefetch.valid[i]);
            }
        }
    }

    /// Every cached implementation of a system call is the one of the executor's own map.
    pub open spec fn calls_faithful(self, setup: SetupView) -> bool {
        &&& self.cache.wf()
        &&& forall|i: int|
            0 <= i < self.cache.slots.len() && #[trigger] self.cache.slots[i] is Some ==> {
                let entry = self.cache.slots[i].unwrap();
                setup.syscall_map.contains_key(entry.0) && setup.syscall_map[entry.0] == entry.1
            }
    }

    proof fn lemma_cached_call(self, setup: SetupView, code: u32, from: int)
        requires
            self.calls_faithful(setup),
            0 <= from,
        ensures
            self.cache.cached(code, from) matches Some(found) ==> setup.syscall_map.contains_key(
                code,
            ) && setup.syscall_map[code] == found,
        decreases self.cache.slots.len() - from,
    {
        if from < self.cache.slots.len() {
            self.lemma_cached_call(setup, code, from + 1);
        }
    }

    /// The cache of system calls changes no call: the implementation that runs is the one of the
    /// map, whether the call is hot or not.
    pub proof fn law_cache_transparent(self, setup: SetupView, code: u32)
        requires
            self.calls_faithful(setup),
        ensures
            self.implementation(setup, code) == setup.syscall_map.get(code),
            self.implementation_cached(setup, code).calls_faithful(setup),
    {
        self.lemma_cached_call(setup, code, 0);
    }
}

impl SetupView {
    /// In unconstrained mode a system call other than a write or the end of the mode is refused: it
    /// is neither run nor counted, and changes no register and no word.
    pub proof fn law_refused(
        self,
        before: ExecutorView,
        after: ExecutorView,
        outcome: Result<(), ExecutionError>,
    )
        requires
            self.called(before, after, outcome),
            before.machine.log.unconstrained,
            before.machine.state.value_of(5) != EXIT_UNCONSTRAINED,
            before.machine.state.value_of(5) != WRITE,
        ensures
            outcome == Err::<(), ExecutionError>(
                ExecutionError::InvalidSyscallUsage(before.machine.state.value_of(5) as u64),
            ),
            after.machine.state.registers == before.machine.state.registers,
            after.machine.state.words_as(before.machine.state),
            after.machine.state.syscall_counts == before.machine.state.syscall_counts,
            after.machine.state.syscall_stats == before.machine.state.syscall_stats,
            after.machine.state.pc == before.machine.state.pc,
            after.machine.log == before.machine.log,
            after.cache == before.cache,
    {
    }

    /// A system call without an implementation fails; it is counted, and changes no register and no
    /// word.
    pub proof fn law_unsupported(
        self,
        before: ExecutorView,
        after: ExecutorView,
        outcome: Result<(), ExecutionError>,
    )
        requires
            self.called(before, after, outcome),
            before.calls_faithful(self),
            !before.machine.log.unconstrained,
            !self.syscall_map.contains_key(before.machine.state.value_of(5)),
        ensures
            outcome == Err::<(), ExecutionError>(
                ExecutionError::UnsupportedSyscall(before.machine.state.value_of(5)),
            ),
            after.machine.state.registers == before.machine.state.registers,
            after.machine.state.words_as(before.machine.state),
            after.machine.state.pc == before.machine.state.pc,
            after.machine.log == before.machine.log,
    {
        let code = before.machine.state.value_of(5);
        let (state, arguments) = before.machine.state.call_operands();
        let counted = before.with(state).call_counted(self, code);
        assert(counted.calls_faithful(self));
        counted.law_cache_transparent(self, code);
    }
}

impl MachineView {
    /// Both machines are in the same state and keep no checkpoint but that of unconstrained mode;
    /// they may differ in their modes and in the events that they have left behind.
    pub open spec fn alike(self, other: MachineView) -> bool {
        &&& self.state == other.state
        &&& self.log.executor_mode != ExecutorMode::Checkpoint
        &&& other.log.executor_mode != ExecutorMode::Checkpoint
        &&& self.log == (LogView {
            executor_mode: self.log.executor_mode,
            local_memory_access: self.log.local_memory_access,
            ..other.log
        })
    }

    /// Both machines are alike, and this one has the given mode.
    spec fn alike_in(self, other: MachineView, mode: ExecutorMode) -> bool {
        self.alike(other) && self.log.executor_mode == mode
    }

    proof fn lemma_alike_read(
        self,
        other: MachineView,
        mode: ExecutorMode,
        addr: u32,
        shard: u32,
        time: u32,
    )
        requires
            self.alike_in(other, mode),
        ensures
            self.read(addr, shard, time, true).alike_in(other.read(addr, shard, time, true), mode),
            self.read_record(addr, shard, time) == other.read_record(addr, shard, time),
    {
        assert(self.looked_up(addr).alike_in(other.looked_up(addr), mode));
    }

    proof fn lemma_alike_wrote(
        self,
        other: MachineView,
        mode: ExecutorMode,
        addr: u32,
        value: u32,
        shard: u32,
        time: u32,
    )
        requires
            self.alike_in(other, mode),
        ensures
            self.wrote(addr, value, shard, time, true).alike_in(
                other.wrote(addr, value, shard, time, true),
                mode,
            ),
    {
    }

    proof fn lemma_alike_look(self, other: MachineView, mode: ExecutorMode, addr: u32)
        requires
            self.alike_in(other, mode),
        ensures
            self.looked_at(addr).alike_in(other.looked_at(addr), mode),
            self.word(addr) == other.word(addr),
    {
    }

    proof fn lemma_alike_load(
        self,
        other: MachineView,
        mode: ExecutorMode,
        instruction: InstructionView,
    )
        requires
            self.alike_in(other, mode),
        ensures
            self.load_operands(instruction).0.alike_in(other.load_operands(instruction).0, mode),
            self.load_operands(instruction).1 == other.load_operands(instruction).1,
            self.load_operands(instruction).2 == other.load_operands(instruction).2,
    {
        reveal(MachineView::load_operands);
        let fetched = self.state.register_used(Register::from_u32(instruction.op_b));
        self.with(fetched).lemma_alike_read(
            other.with(fetched),
            mode,
            word_address(self.load_operands(instruction).1),
            fetched.current_shard,
            fetched.time(MemoryAccessPosition::Memory),
        );
    }

    proof fn lemma_alike_store(
        self,
        other: MachineView,
        mode: ExecutorMode,
        instruction: InstructionView,
    )
        requires
            self.alike_in(other, mode),
        ensures
            self.store_operands(instruction).0.alike_in(other.store_operands(instruction).0, mode),
            self.store_operands(instruction).1 == other.store_operands(instruction).1,
            self.store_operands(instruction).2 == other.store_operands(instruction).2,
            self.store_operands(instruction).3 == other.store_operands(instruction).3,
    {
        reveal(MachineView::store_operands);
        let fetched = self.state.source_values(instruction).0;
        self.with(fetched).lemma_alike_look(
            other.with(fetched),
            mode,
            word_address(self.store_operands(instruction).2),
        );
    }

    proof fn lemma_alike(self, other: MachineView, instruction: InstructionView)
        requires
            self.alike(other),
        ensures
            self.executed(instruction).0.alike(other.executed(instruction).0),
            self.executed(instruction).1 == other.executed(instruction).1,
            self.executed(instruction).0.log.executor_mode == self.log.executor_mode,
    {
        let mode = self.log.executor_mode;
        let machine = self.with(self.state.predicted());
        let other_machine = other.with(other.state.predicted());
        assert(machine.alike_in(other_machine, mode));
        if instruction.opcode.is_load() {
            machine.lemma_alike_load(other_machine, mode, instruction);
        } else if instruction.opcode.is_store() {
            machine.lemma_alike_store(other_machine, mode, instruction);
            let (looked, a, addr, word) = machine.store_operands(instruction);
            looked.lemma_alike_wrote(
                other_machine.store_operands(instruction).0,
                mode,
                word_address(addr),
                stored(instruction.opcode, word, a, addr),
                looked.state.current_shard,
                looked.state.time(MemoryAccessPosition::Memory),
            );
        }
    }
}

impl ExecutorView {
    /// Both executors are alike.
    pub open spec fn alike(self, other: ExecutorView) -> bool {
        self.machine.alike(other.machine) && self.cache == other.cache
    }

    proof fn lemma_alike_cycle(
        self,
        setup: SetupView,
        other: ExecutorView,
        other_setup: SetupView,
    )
        requires
            self.alike(other),
            setup.program == other_setup.program,
            setup.max_cycles == other_setup.max_cycles,
        ensures
            self.plain_cycle(setup).0.alike(other.plain_cycle(other_setup).0),
            self.plain_cycle(setup).1 == other.plain_cycle(other_setup).1,
            self.plain_cycle(setup).0.machine.log.executor_mode == self.machine.log.executor_mode,
    {
        reveal(ExecutorView::plain_cycle);
        let instruction = self.noted().fetched(setup);
        let found = self.before_execution(setup);
        let other_found = other.before_execution(other_setup);
        assert(found.alike(other_found));
        found.lemma_alike(other_found, instruction@);
    }

    proof fn lemma_alike_run(
        self,
        setup: SetupView,
        other: ExecutorView,
        other_setup: SetupView,
        count: nat,
    )
        requires
            self.alike(other),
            setup.program == other_setup.program,
            setup.max_cycles == other_setup.max_cycles,
        ensures
            self.after_cycles(setup, count).alike(other.after_cycles(other_setup, count)),
            self.after_cycles(setup, count).machine.log.executor_mode
                == self.machine.log.executor_mode,
            self.after_cycles(setup, count).plain_cycle(setup).1 == other.after_cycles(
                other_setup,
                count,
            ).plain_cycle(other_setup).1,
        decreases count,
    {
        if count > 0 {
            let before = (count - 1) as nat;
            self.lemma_alike_run(setup, other, other_setup, before);
            self.after_cycles(setup, before).lemma_alike_cycle(
                setup,
                other.after_cycles(other_setup, before),
                other_setup,
            );
        }
        self.after_cycles(setup, count).lemma_alike_cycle(
            setup,
            other.after_cycles(other_setup, count),
            other_setup,
        );
    }

    /// Runs of plain executors that differ only in their modes and events end in the same state with
    /// the same outcome, each in its own mode.
    pub proof fn law_alike(
        self,
        setup: SetupView,
        after: ExecutorView,
        outcome: Result<bool, ExecutionError>,
        other: ExecutorView,
        other_setup: SetupView,
        other_after: ExecutorView,
        other_outcome: Result<bool, ExecutionError>,
    )
        requires
            self.plain(setup),
            self.fetchable(setup),
            self.alike(other),
            setup.program == other_setup.program,
            setup.max_cycles == other_setup.max_cycles,
            setup.completed(self, after, outcome),
            other_setup.completed(other, other_after, other_outcome),
        ensures
            outcome == other_outcome,
            after.alike(other_after),
            after.machine.log.executor_mode == self.machine.log.executor_mode,
    {
        let count = self.law_completed(setup, after, outcome);
        let other_count = other.law_completed(other_setup, other_after, other_outcome);
        self.lemma_alike_run(setup, other, other_setup, count);
        self.lemma_alike_run(setup, other, other_setup, other_count);
        if count < other_count {
            assert(other.after_cycles(other_setup, count).plain_cycle(other_setup).1 == Ok::<
                bool,
                ExecutionError,
            >(false));
        }
        if other_count < count {
            assert(self.after_cycles(setup, other_count).plain_cycle(setup).1 == Ok::<
                bool,
                ExecutionError,
            >(false));
        }
        self.after_cycles(setup, count).lemma_alike_cycle(
            setup,
            other.after_cycles(other_setup, count),
            other_setup,
        );
    }
}

impl Executor {
    /// A run with events and one without agree: of two executors in the same state with the same
    /// program, which makes no system calls, both runs end in the same state, registers, memory and
    /// clocks included, with the same outcome. Each ends in its own mode.
    pub proof fn law_run_fast(
        fast: Executor,
        fast_after: Executor,
        fast_outcome: Result<(), ExecutionError>,
        traced: Executor,
        traced_after: Executor,
        traced_outcome: Result<(), ExecutionError>,
    )
        requires
            fast@ == traced@,
            fast.setup().program == traced.setup().program,
            fast.setup().max_cycles == traced.setup().max_cycles,
            fast@.plain(fast.setup()),
            fast@.fetchable(fast.setup()),
            fast.ran_fast(fast_after, fast_outcome),
            traced.ran_as(ExecutorMode::Trace, traced_after, traced_outcome),
        ensures
            fast_after@.machine.state == traced_after@.machine.state,
            Executor::executed_to(fast_outcome) == Executor::executed_to(traced_outcome),
            fast_after@.machine.log.executor_mode == ExecutorMode::Simple,
            traced_after@.machine.log.executor_mode == ExecutorMode::Trace,
            fast_after@.machine.log.local_memory_access
                == fast@.machine.log.local_memory_access,
            fast_after.setup().print_report,
            traced_after.setup().print_report,
    {
        let setup = SetupView { print_report: true, ..fast.setup() };
        let other_setup = SetupView { print_report: true, ..traced.setup() };
        let start = fast.in_mode(ExecutorMode::Simple).with_events(Map::empty());
        let other_start = traced.in_mode(ExecutorMode::Trace);
        let outcome = Executor::executed_to(fast_outcome);
        let other_outcome = Executor::executed_to(traced_outcome);
        let last = choose|last: ExecutorView| #[trigger]
            setup.executed(start, last, outcome) && fast_after@ == last.with_events(
                fast@.machine.log.local_memory_access,
            );
        let ready = start.ready_to_run(setup);
        let other_ready = other_start.ready_to_run(other_setup);
        assert(ready.alike(other_ready));
        assert(ready.plain(setup));
        assert(other_ready.plain(other_setup));
        ready.law_alike(
            setup,
            last,
            outcome,
            other_ready,
            other_setup,
            traced_after@,
            other_outcome,
        );
        other_ready.law_alike(
            other_setup,
            traced_after@,
            other_outcome,
            ready,
            setup,
            last,
            outcome,
        );
    }
}

} // verus!
