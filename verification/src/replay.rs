//! Checkpoints and replay: the checkpoint of a batch is the state from before it, and a run from the
//! checkpoint ends as the batch has ended.
use vstd::prelude::*;

#[allow(unused_imports)]
use crate::access::{region_of, SPATIAL_REGION_SIZE};
#[allow(unused_imports)]
use crate::cycle::{ExecutorView, SetupView};
#[allow(unused_imports)]
use crate::error::ExecutionError;
#[allow(unused_imports)]
use crate::events::{MemoryAccessPosition, MemoryRecord};
use crate::executor::Executor;
#[allow(unused_imports)]
use crate::isa::{InstructionView, Opcode, Register};
#[allow(unused_imports)]
use crate::lanes::{aligned_for, loaded, stored};
#[allow(unused_imports)]
use crate::machine::{spill_address, word_address};
#[allow(unused_imports)]
use crate::memory::{LogView, MachineView};
#[allow(unused_imports)]
use crate::mode::ExecutorMode;
#[allow(unused_imports)]
use crate::prefetch::PrefetchView;
use crate::state::ExecutionState;
#[allow(unused_imports)]
use crate::state::StateView;

verus! {

impl StateView {
    /// Both states are the same for a program: they may differ in which words the sparse memory holds
    /// under a page, and in which initial values of zero are written down.
    pub open spec fn resembles(self, other: StateView) -> bool {
        &&& other == (StateView {
            memory: other.memory,
            uninitialized_memory: other.uninitialized_memory,
            ..self
        })
        &&& self.words_as(other)
        &&& self.paged()
        &&& forall|addr: u32| #[trigger] self.initial_value(addr) == other.initial_value(addr)
    }

    proof fn lemma_resembling_record(self, other: StateView, addr: u32)
        requires
            self.resembles(other),
        ensures
            self.record_at(addr) == other.record_at(addr),
            self.initial_value(addr) == other.initial_value(addr),
            self.effective_record(addr) == other.effective_record(addr),
    {
    }

    proof fn lemma_resembling_update(self, other: StateView, after: StateView, other_after: StateView)
        requires
            self.resembles(other),
            after.memory == self.memory,
            after.pages == self.pages,
            after.page_cache == self.page_cache,
            after.uninitialized_memory == self.uninitialized_memory,
            other_after == (StateView {
                memory: other.memory,
                uninitialized_memory: other.uninitialized_memory,
                ..after
            }),
        ensures
            after.resembles(other_after),
    {
        assert forall|addr: u32| #[trigger] after.record_at(addr) == other_after.record_at(addr) by {
            assert(self.record_at(addr) == other.record_at(addr));
        }
        assert forall|addr: u32| #[trigger] after.initial_value(addr) == other_after.initial_value(
            addr,
        ) by {
            assert(self.initial_value(addr) == other.initial_value(addr));
        }
    }

    proof fn lemma_resembling_written(self, other: StateView, addr: u32, record: MemoryRecord)
        requires
            self.resembles(other),
        ensures
            self.written(addr, record).resembles(other.written(addr, record)),
    {
        let after = self.written(addr, record);
        let other_after = other.written(addr, record);
        assert(other.paged());
        assert forall|at: u32| #[trigger] after.record_at(at) == other_after.record_at(at) by {
            self.law_write_read(addr, record, at);
            other.law_write_read(addr, record, at);
            assert(self.record_at(at) == other.record_at(at));
        }
        self.law_write_read(addr, record, addr);
        assert forall|at: u32| #[trigger] after.initial_value(at) == other_after.initial_value(at) by {
            assert(self.initial_value(at) == other.initial_value(at));
        }
    }

    proof fn lemma_resembling_prefetched(self, other: StateView, addr: u32)
        requires
            self.resembles(other),
        ensures
            self.prefetched(addr).resembles(other.prefetched(addr)),
    {
        self.lemma_resembling_record(other, addr);
        self.lemma_resembling_update(other, self.prefetched(addr), other.prefetched(addr));
    }

    proof fn lemma_resembling_all(self, other: StateView, addrs: Seq<u32>, count: nat)
        requires
            self.resembles(other),
        ensures
            self.all_prefetched(addrs, count).resembles(other.all_prefetched(addrs, count)),
        decreases count,
    {
        if count > 0 {
            let before = (count - 1) as nat;
            self.lemma_resembling_all(other, addrs, before);
            self.all_prefetched(addrs, before).lemma_resembling_prefetched(
                other.all_prefetched(addrs, before),
                addrs[count - 1],
            );
        }
    }

    proof fn lemma_resembling_line(self, other: StateView, line: u32, count: nat)
        requires
            self.resembles(other),
        ensures
            self.line_prefetched(line, count).resembles(other.line_prefetched(line, count)),
        decreases count,
    {
        if count > 0 {
            let before = (count - 1) as nat;
            self.lemma_resembling_line(other, line, before);
            let start = self.line_prefetched(line, before);
            let other_start = other.line_prefetched(line, before);
            let addr = line.wrapping_add(((count - 1) * 4) as u32);
            start.lemma_resembling_record(other_start, addr);
            start.lemma_resembling_update(
                other_start,
                self.line_prefetched(line, count),
                other.line_prefetched(line, count),
            );
        }
    }

    proof fn lemma_resembling_register(self, other: StateView, register: Register, value: u32)
        requires
            self.resembles(other),
        ensures
            self.register_value(register) == other.register_value(register),
            self.register_used(register).resembles(other.register_used(register)),
            self.register_written(register, value).resembles(
                other.register_written(register, value),
            ),
    {
        self.lemma_resembling_record(other, spill_address(register));
        let used = self.register_used(register);
        let other_used = other.register_used(register);
        self.lemma_resembling_update(other, used, other_used);
        let record = MemoryRecord {
            value: if register == Register::X0 {
                0
            } else {
                value
            },
            shard: self.current_shard,
            timestamp: self.time(MemoryAccessPosition::A),
        };
        if used.allocator.spilled(register) {
            used.lemma_resembling_written(other_used, spill_address(register), record);
        } else {
            used.lemma_resembling_update(
                other_used,
                used.register_set(register as int, record),
                other_used.register_set(register as int, record),
            );
        }
    }
}

impl MachineView {
    /// Both machines are the same for a program, whatever their logs hold.
    pub open spec fn resembles(self, other: MachineView) -> bool {
        &&& self.state.resembles(other.state)
        &&& self.log.unconstrained == other.log.unconstrained
    }

    proof fn lemma_resembling_read(self, other: MachineView, addr: u32, shard: u32, time: u32)
        requires
            self.resembles(other),
        ensures
            self.read(addr, shard, time, true).resembles(other.read(addr, shard, time, true)),
            self.read_record(addr, shard, time) == other.read_record(addr, shard, time),
    {
        self.state.lemma_resembling_record(other.state, addr);
        let looked = self.looked_up(addr).state;
        let other_looked = other.looked_up(addr).state;
        if self.state.prefetch.record(addr) is None {
            let record = self.state.effective_record(addr);
            let state = StateView {
                stride: self.state.stride.after(addr),
                ..self.state.buffered(addr, record)
            };
            let other_state = StateView {
                stride: other.state.stride.after(addr),
                ..other.state.buffered(addr, record)
            };
            self.state.lemma_resembling_update(other.state, state, other_state);
            if let Some(next) = self.state.stride.prediction(addr) {
                state.lemma_resembling_prefetched(other_state, next);
            }
        }
        assert(looked.resembles(other_looked));
        let before = self.found(addr);
        let after = MemoryRecord { shard, timestamp: time, ..before };
        looked.lemma_resembling_written(other_looked, addr, after);
    }

    proof fn lemma_resembling_wrote(
        self,
        other: MachineView,
        addr: u32,
        value: u32,
        shard: u32,
        time: u32,
    )
        requires
            self.resembles(other),
        ensures
            self.wrote(addr, value, shard, time, true).resembles(
                other.wrote(addr, value, shard, time, true),
            ),
    {
        self.state.lemma_resembling_record(other.state, addr);
        self.state.lemma_resembling_written(
            other.state,
            addr,
            MemoryRecord { value, shard, timestamp: time },
        );
    }

    proof fn lemma_resembling_look(self, other: MachineView, addr: u32)
        requires
            self.resembles(other),
        ensures
            self.looked_at(addr).resembles(other.looked_at(addr)),
            self.word(addr) == other.word(addr),
    {
        self.state.lemma_resembling_record(other.state, addr);
        let noted = StateView { accesses: self.state.accesses.recorded(addr), ..self.state };
        let other_noted = StateView { accesses: other.state.accesses.recorded(addr), ..other.state };
        self.state.lemma_resembling_update(other.state, noted, other_noted);
        if self.state.prefetch.record(addr) is None {
            let line = region_of(addr).wrapping_add(SPATIAL_REGION_SIZE);
            match self.state.record_at(addr) {
                Some(record) => {
                    let predictions = noted.accesses.predictions(addr);
                    let buffered = noted.buffered(addr, record);
                    let other_buffered = other_noted.buffered(addr, record);
                    noted.lemma_resembling_update(other_noted, buffered, other_buffered);
                    buffered.lemma_resembling_all(other_buffered, predictions, predictions.len());
                    buffered.all_prefetched(predictions, predictions.len()).lemma_resembling_line(
                        other_buffered.all_prefetched(predictions, predictions.len()),
                        line,
                        16,
                    );
                },
                None => {
                    noted.lemma_resembling_line(other_noted, line, 16);
                },
            }
        }
    }

    proof fn lemma_resembling_load(self, other: MachineView, instruction: InstructionView)
        requires
            self.resembles(other),
        ensures
            self.load_operands(instruction).0.resembles(other.load_operands(instruction).0),
            self.load_operands(instruction).1 == other.load_operands(instruction).1,
            self.load_operands(instruction).2 == other.load_operands(instruction).2,
    {
        reveal(MachineView::load_operands);
        let rs1 = Register::from_u32(instruction.op_b);
        self.state.lemma_resembling_register(other.state, rs1, 0);
        let fetched = self.with(self.state.register_used(rs1));
        let other_fetched = other.with(other.state.register_used(rs1));
        fetched.lemma_resembling_read(
            other_fetched,
            word_address(self.load_operands(instruction).1),
            fetched.state.current_shard,
            fetched.state.time(MemoryAccessPosition::Memory),
        );
    }

    proof fn lemma_resembling_sources(self, other: MachineView, instruction: InstructionView)
        requires
            self.resembles(other),
        ensures
            self.state.source_values(instruction).0.resembles(
                other.state.source_values(instruction).0,
            ),
            self.state.source_values(instruction).1 == other.state.source_values(instruction).1,
            self.state.source_values(instruction).2 == other.state.source_values(instruction).2,
    {
        let rs1 = Register::from_u32(instruction.op_a);
        let rs2 = Register::from_u32(instruction.op_b);
        self.state.lemma_resembling_register(other.state, rs2, 0);
        self.state.register_used(rs2).lemma_resembling_register(
            other.state.register_used(rs2),
            rs1,
            0,
        );
    }

    proof fn lemma_resembling_store(self, other: MachineView, instruction: InstructionView)
        requires
            self.resembles(other),
        ensures
            self.store_operands(instruction).0.resembles(other.store_operands(instruction).0),
            self.store_operands(instruction).1 == other.store_operands(instruction).1,
            self.store_operands(instruction).2 == other.store_operands(instruction).2,
            self.store_operands(instruction).3 == other.store_operands(instruction).3,
    {
        reveal(MachineView::store_operands);
        self.lemma_resembling_sources(other, instruction);
        let fetched = self.with(self.state.source_values(instruction).0);
        let other_fetched = other.with(other.state.source_values(instruction).0);
        fetched.lemma_resembling_look(
            other_fetched,
            word_address(self.store_operands(instruction).2),
        );
    }

    proof fn lemma_resembling_alu(self, other: MachineView, instruction: InstructionView)
        requires
            self.resembles(other),
        ensures
            self.after_alu(instruction).resembles(other.after_alu(instruction)),
    {
        let rs1 = Register::from_u32(instruction.op_b);
        let rs2 = Register::from_u32(instruction.op_c);
        let (state, b, c) = self.state.alu_operands(instruction);
        let (other_state, other_b, other_c) = other.state.alu_operands(instruction);
        if !instruction.imm_c {
            self.state.lemma_resembling_register(other.state, rs2, 0);
            self.state.register_used(rs2).lemma_resembling_register(
                other.state.register_used(rs2),
                rs1,
                0,
            );
        } else if !instruction.imm_b {
            self.state.lemma_resembling_register(other.state, rs1, 0);
        }
        let a = crate::alu::alu_result(instruction.opcode, b, c);
        state.lemma_resembling_register(other_state, Register::from_u32(instruction.op_a), a);
    }

    proof fn lemma_resembling_onward(
        self,
        other: MachineView,
        opcode: Opcode,
        taken: bool,
        target: u32,
    )
        requires
            self.resembles(other),
        ensures
            self.with(self.state.learned(opcode, taken, target)).resembles(
                other.with(other.state.learned(opcode, taken, target)),
            ),
            self.advanced(target).resembles(other.advanced(target)),
            self.with(self.state.predicted()).resembles(other.with(other.state.predicted())),
    {
        self.state.lemma_resembling_update(
            other.state,
            self.state.learned(opcode, taken, target),
            other.state.learned(opcode, taken, target),
        );
        self.state.lemma_resembling_update(
            other.state,
            self.state.advanced(target),
            other.state.advanced(target),
        );
        self.state.lemma_resembling_update(
            other.state,
            self.state.predicted(),
            other.state.predicted(),
        );
    }

    proof fn lemma_resembling_executed(self, other: MachineView, instruction: InstructionView)
        requires
            self.resembles(other),
        ensures
            self.executed(instruction).0.resembles(other.executed(instruction).0),
            self.executed(instruction).1 == other.executed(instruction).1,
    {
        let opcode = instruction.opcode;
        self.lemma_resembling_onward(other, opcode, true, 0);
        let machine = self.with(self.state.predicted());
        let other_machine = other.with(other.state.predicted());
        let next_pc = self.state.pc.wrapping_add(4);
        let rd = Register::from_u32(instruction.op_a);
        if opcode.is_alu() {
            machine.lemma_resembling_alu(other_machine, instruction);
            machine.after_alu(instruction).lemma_resembling_onward(
                other_machine.after_alu(instruction),
                opcode,
                true,
                next_pc,
            );
        } else if opcode.is_load() {
            machine.lemma_resembling_load(other_machine, instruction);
            let (read, addr, word) = machine.load_operands(instruction);
            let other_read = other_machine.load_operands(instruction).0;
            if aligned_for(opcode, addr) {
                let a = loaded(opcode, word, addr);
                read.state.lemma_resembling_register(other_read.state, rd, a);
                read.with(read.state.register_written(rd, a)).lemma_resembling_onward(
                    other_read.with(other_read.state.register_written(rd, a)),
                    opcode,
                    true,
                    next_pc,
                );
            }
        } else if opcode.is_store() {
            machine.lemma_resembling_store(other_machine, instruction);
            let (looked, a, addr, word) = machine.store_operands(instruction);
            let other_looked = other_machine.store_operands(instruction).0;
            if aligned_for(opcode, addr) {
                let value = stored(opcode, word, a, addr);
                let shard = looked.state.current_shard;
                let time = looked.state.time(MemoryAccessPosition::Memory);
                let at = word_address(addr);
                looked.lemma_resembling_wrote(other_looked, at, value, shard, time);
                looked.wrote(at, value, shard, time, true).lemma_resembling_onward(
                    other_looked.wrote(at, value, shard, time, true),
                    opcode,
                    true,
                    next_pc,
                );
            }
        } else if opcode.is_branch() {
            machine.lemma_resembling_sources(other_machine, instruction);
            let (state, a, b) = machine.state.source_values(instruction);
            let other_state = other_machine.state.source_values(instruction).0;
            let taken = crate::machine::branch_taken(opcode, a, b);
            let (after, target) = machine.after_branch(instruction);
            machine.with(state).lemma_resembling_onward(
                other_machine.with(other_state),
                opcode,
                taken,
                target,
            );
            after.lemma_resembling_onward(
                other_machine.after_branch(instruction).0,
                opcode,
                taken,
                target,
            );
        } else if opcode == Opcode::JAL {
            machine.state.lemma_resembling_register(other_machine.state, rd, next_pc);
            let (after, target) = machine.after_jal(instruction);
            machine.with(machine.state.register_written(rd, next_pc)).lemma_resembling_onward(
                other_machine.with(other_machine.state.register_written(rd, next_pc)),
                opcode,
                true,
                target,
            );
            after.lemma_resembling_onward(
                other_machine.after_jal(instruction).0,
                opcode,
                true,
                target,
            );
        } else if opcode == Opcode::JALR {
            let rs1 = Register::from_u32(instruction.op_b);
            machine.state.lemma_resembling_register(other_machine.state, rs1, 0);
            let used = machine.state.register_used(rs1);
            let other_used = other_machine.state.register_used(rs1);
            used.lemma_resembling_register(other_used, rd, next_pc);
            let (after, target) = machine.after_jalr(instruction);
            machine.with(used.register_written(rd, next_pc)).lemma_resembling_onward(
                other_machine.with(other_used.register_written(rd, next_pc)),
                opcode,
                true,
                target,
            );
            after.lemma_resembling_onward(
                other_machine.after_jalr(instruction).0,
                opcode,
                true,
                target,
            );
        } else if opcode == Opcode::AUIPC {
            let a = self.state.pc.wrapping_add(instruction.op_b);
            machine.state.lemma_resembling_register(other_machine.state, rd, a);
            machine.after_auipc(instruction).lemma_resembling_onward(
                other_machine.after_auipc(instruction),
                opcode,
                true,
                next_pc,
            );
        }
    }
}

impl ExecutorView {
    proof fn lemma_resembling_cycle(
        self,
        setup: SetupView,
        other: ExecutorView,
        other_setup: SetupView,
    )
        requires
            self.machine.resembles(other.machine),
            setup.program == other_setup.program,
            setup.max_cycles == other_setup.max_cycles,
        ensures
            self.plain_cycle(setup).0.machine.resembles(other.plain_cycle(other_setup).0.machine),
            self.plain_cycle(setup).1 == other.plain_cycle(other_setup).1,
    {
        reveal(ExecutorView::plain_cycle);
        let instruction = self.noted().fetched(setup);
        let found = self.before_execution(setup);
        let other_found = other.before_execution(other_setup);
        self.machine.state.lemma_resembling_update(
            other.machine.state,
            found.state,
            other_found.state,
        );
        found.lemma_resembling_executed(other_found, instruction@);
        found.law_untouched(instruction@);
        other_found.law_untouched(instruction@);
        let (left, outcome) = found.executed(instruction@);
        let other_left = other_found.executed(instruction@).0;
        if outcome is Ok {
            left.state.lemma_resembling_update(
                other_left.state,
                self.plain_cycle(setup).0.machine.state,
                other.plain_cycle(other_setup).0.machine.state,
            );
        }
    }

    proof fn lemma_resembling_run(
        self,
        setup: SetupView,
        other: ExecutorView,
        other_setup: SetupView,
        count: nat,
    )
        requires
            self.machine.resembles(other.machine),
            setup.program == other_setup.program,
            setup.max_cycles == other_setup.max_cycles,
        ensures
            self.after_cycles(setup, count).machine.resembles(
                other.after_cycles(other_setup, count).machine,
            ),
            self.after_cycles(setup, count).plain_cycle(setup).1 == other.after_cycles(
                other_setup,
                count,
            ).plain_cycle(other_setup).1,
        decreases count,
    {
        if count > 0 {
            let before = (count - 1) as nat;
            self.lemma_resembling_run(setup, other, other_setup, before);
            self.after_cycles(setup, before).lemma_resembling_cycle(
                setup,
                other.after_cycles(other_setup, before),
                other_setup,
            );
        }
        self.after_cycles(setup, count).lemma_resembling_cycle(
            setup,
            other.after_cycles(other_setup, count),
            other_setup,
        );
    }

    /// Runs of plain executors whose machines are the same for a program end with the same outcome in
    /// machines that are the same for a program, whatever their modes are.
    pub proof fn law_resembling(
        self,
        setup: SetupView,
        after: ExecutorView,
        outcome: Result<bool, ExecutionError>,
        other: ExecutorView,
        other_setup: SetupView,
        other_after: ExecutorView,
        other_outcome: Result<bool, ExecutionError>,
    )
        requires
            self.plain(setup),
            self.fetchable(setup),
            self.machine.resembles(other.machine),
            setup.program == other_setup.program,
            setup.max_cycles == other_setup.max_cycles,
            setup.completed(self, after, outcome),
            other_setup.completed(other, other_after, other_outcome),
        ensures
            outcome == other_outcome,
            after.machine.resembles(other_after.machine),
    {
        let count = self.law_completed(setup, after, outcome);
        let other_count = other.law_completed(other_setup, other_after, other_outcome);
        self.lemma_resembling_run(setup, other, other_setup, count);
        self.lemma_resembling_run(setup, other, other_setup, other_count);
        if count < other_count {
            assert(other.after_cycles(other_setup, count).plain_cycle(other_setup).1 == Ok::<
                bool,
                ExecutionError,
            >(false));
        }
        if other_count < count {
            assert(self.after_cycles(setup, other_count).plain_cycle(setup).1 == Ok::<
                bool,
                ExecutionError,
            >(false));
        }
        self.after_cycles(setup, count).lemma_resembling_cycle(
            setup,
            other.after_cycles(other_setup, count),
            other_setup,
        );
    }
}

impl MachineView {
    /// Where it is written down that a word had an initial value before its first access, it has one
    /// that is not zero, and where it is written down that it had none, its initial value is zero.
    pub open spec fn honest(self) -> bool {
        let noted = self.log.uninitialized_memory_checkpoint;
        forall|addr: u32| #[trigger]
            noted.contains_key(addr) ==> noted[addr] == (self.state.initial_value(addr) != 0)
    }

    proof fn lemma_honest(self, after: MachineView, addr: u32)
        requires
            self.honest(),
            after.state.uninitialized_memory == self.state.uninitialized_memory,
            after.log.uninitialized_memory_checkpoint == self.log.uninitialized_memory_checkpoint
                || after.log.uninitialized_memory_checkpoint
                == self.initialized(addr).log.uninitialized_memory_checkpoint,
        ensures
            after.honest(),
    {
        assert forall|at: u32| #[trigger]
            after.log.uninitialized_memory_checkpoint.contains_key(at) implies after.log.uninitialized_memory_checkpoint[at]
            == (after.state.initial_value(at) != 0) by {
            assert(after.state.initial_value(at) == self.state.initial_value(at));
        }
    }

    proof fn lemma_executed_honest(self, instruction: InstructionView)
        requires
            self.honest(),
        ensures
            self.executed(instruction).0.honest(),
    {
        let opcode = instruction.opcode;
        let machine = self.with(self.state.predicted());
        let after = self.executed(instruction).0;
        self.law_untouched(instruction);
        if opcode.is_load() {
            reveal(MachineView::load_operands);
            let rs1 = Register::from_u32(instruction.op_b);
            let fetched = machine.with(machine.state.register_used(rs1));
            let at = word_address(machine.load_operands(instruction).1);
            assert(fetched.honest()) by {
                self.lemma_honest(fetched, 0);
            }
            fetched.lemma_honest(after, at);
        } else if opcode.is_store() {
            reveal(MachineView::store_operands);
            let (looked, a, addr, word) = machine.store_operands(instruction);
            let fetched = machine.with(machine.state.source_values(instruction).0);
            fetched.lemma_look_frame(word_address(addr));
            self.lemma_honest(looked, 0);
            looked.lemma_honest(after, word_address(addr));
        } else {
            self.lemma_honest(after, 0);
        }
    }
}

impl ExecutorView {
    proof fn lemma_honest_run(self, setup: SetupView, count: nat)
        requires
            self.machine.honest(),
        ensures
            self.after_cycles(setup, count).machine.honest(),
            self.after_cycles(setup, count).machine.state.uninitialized_memory
                == self.machine.state.uninitialized_memory,
        decreases count,
    {
        if count > 0 {
            self.lemma_honest_run(setup, (count - 1) as nat);
            self.after_cycles(setup, (count - 1) as nat).lemma_honest_cycle(setup);
        }
    }

    proof fn lemma_honest_cycle(self, setup: SetupView)
        requires
            self.machine.honest(),
        ensures
            self.plain_cycle(setup).0.machine.honest(),
            self.plain_cycle(setup).0.machine.state.uninitialized_memory
                == self.machine.state.uninitialized_memory,
    {
        reveal(ExecutorView::plain_cycle);
        let instruction = self.noted().fetched(setup);
        let found = self.before_execution(setup);
        self.machine.lemma_honest(found, 0);
        found.lemma_executed_honest(instruction@);
        found.law_untouched(instruction@);
        found.executed(instruction@).0.lemma_honest(self.plain_cycle(setup).0.machine, 0);
    }
}

impl SetupView {
    /// The checkpoint of a batch is the state from before the batch in everything but its memory and
    /// its initial values: registers, program counter, clocks, shard, streams and all that has been
    /// learned. This is so for every program, also one that makes system calls.
    pub proof fn law_checkpoint_state(
        self,
        before: ExecutorView,
        after: ExecutorView,
        checkpoint: StateView,
        done: bool,
    )
        requires
            self.checkpointed(before, after, Ok((checkpoint, done))),
        ensures
            checkpoint.registers == before.machine.state.registers,
            checkpoint.register_access_count == before.machine.state.register_access_count,
            checkpoint.allocator == before.machine.state.allocator,
            checkpoint.pc == before.machine.state.pc,
            checkpoint.clk == before.machine.state.clk,
            checkpoint.global_clk == before.machine.state.global_clk,
            checkpoint.current_shard == before.machine.state.current_shard,
            checkpoint.pages == before.machine.state.pages,
            checkpoint.page_cache == before.machine.state.page_cache,
            checkpoint.input_stream == before.machine.state.input_stream,
            checkpoint.input_stream_ptr == before.machine.state.input_stream_ptr,
            checkpoint.proof_stream_ptr == before.machine.state.proof_stream_ptr,
            checkpoint.public_values_stream == before.machine.state.public_values_stream,
            checkpoint.public_values_stream_ptr == before.machine.state.public_values_stream_ptr,
            checkpoint.syscall_counts == before.machine.state.syscall_counts,
            checkpoint == (StateView {
                memory: checkpoint.memory,
                uninitialized_memory: checkpoint.uninitialized_memory,
                ..before.machine.state
            }),
            after.machine.log.memory_checkpoint == Map::<u32, Option<MemoryRecord>>::empty(),
            after.machine.log.uninitialized_memory_checkpoint == Map::<u32, bool>::empty(),
    {
    }
}

impl ExecutorView {
    /// A run from the checkpoint of a batch ends as the batch has ended: with the same outcome, in the
    /// same registers and words, at the same place and time. The batch may take up to `count` cycles,
    /// as many as the access counters of registers have room for.
    pub proof fn law_replay(
        self,
        setup: SetupView,
        after: ExecutorView,
        checkpoint: StateView,
        done: bool,
        count: nat,
        again: ExecutorView,
        again_setup: SetupView,
        again_after: ExecutorView,
        again_outcome: Result<bool, ExecutionError>,
    )
        requires
            self.plain(setup),
            self.fetchable(setup),
            self.machine.sound(),
            self.machine.honest(),
            self.machine.state.regular(3 * count as int),
            !self.batch_start(setup).goes_on(setup, count),
            setup.checkpointed(self, after, Ok((checkpoint, done))),
            again.machine.state == checkpoint,
            again.machine.log.unconstrained == self.machine.log.unconstrained,
            again_setup.program == setup.program,
            again_setup.max_cycles == setup.max_cycles,
            again_setup.executed(again, again_after, again_outcome),
        ensures
            done,
            again_outcome == Ok::<bool, ExecutionError>(true),
            again_after.machine.state.registers == after.machine.state.registers,
            again_after.machine.state.pages == after.machine.state.pages,
            again_after.machine.state.words_as(after.machine.state),
            again_after.machine.state.pc == after.machine.state.pc,
            again_after.machine.state.clk == after.machine.state.clk,
            again_after.machine.state.global_clk == after.machine.state.global_clk,
            again_after.machine.state.branch == after.machine.state.branch,
            again_after.machine.state.loops == after.machine.state.loops,
    {
        let begun = ExecutorView { machine: self.machine.batch_begun(), ..self };
        let start = self.batch_start(setup);
        let image = setup.program.memory_image@;
        let (last, executed) = choose|last: ExecutorView, executed: Result<bool, ExecutionError>|
            #[trigger]
            setup.executed(begun, last, executed) && match executed {
                Ok(ended) => {
                    &&& after == (ExecutorView { machine: last.machine.batch_ended(), ..last })
                    &&& Ok::<(StateView, bool), ExecutionError>((checkpoint, done)) == Ok::<
                        (StateView, bool),
                        ExecutionError,
                    >((last.machine.checkpoint(self.machine.state, ended), ended))
                },
                Err(error) => {
                    &&& after == last
                    &&& Ok::<(StateView, bool), ExecutionError>((checkpoint, done)) == Err::<
                        (StateView, bool),
                        ExecutionError,
                    >(error)
                },
            };
        assert(executed == Ok::<bool, ExecutionError>(done));
        self.lemma_started(setup);
        let taken = start.law_completed(setup, last, executed);
        if taken >= count {
            assert(start.goes_on(setup, count));
        }
        let before_last = start.after_cycles(setup, taken);
        start.law_plain_run(setup, taken, before_last);
        before_last.law_plain_cycle(setup, last, executed);
        assert(start.machine.state.regular((3 * taken + 3) as int));
        assert(done);
        let found = last.machine.checkpoint(start.machine.state, true);
        assert forall|addr: u32| #[trigger] checkpoint.record_at(addr)
            == start.machine.state.record_at(addr) by {
            start.law_checkpoint(setup, taken, before_last, last, done, addr);
            assert(found.record_at(addr) == checkpoint.record_at(addr));
        }
        start.lemma_honest_run(setup, taken);
        before_last.lemma_honest_cycle(setup);
        let noted = last.machine.log.uninitialized_memory_checkpoint;
        assert forall|addr: u32| #[trigger] checkpoint.initial_value(addr)
            == self.machine.state.initial_value(addr) by {
            assert(last.machine.state.initial_value(addr) == self.machine.state.initial_value(addr));
            let left_out = noted.dom().filter(|at: u32| !noted[at]);
            if left_out.contains(addr) {
                assert(noted.contains_key(addr));
            }
        }
        let again_start = again.ready_to_run(again_setup);
        assert(start.machine.resembles(again_start.machine)) by {
            start.lemma_loaded_again(setup, self, again_start, checkpoint);
        }
        start.law_resembling(
            setup,
            last,
            executed,
            again_start,
            again_setup,
            again_after,
            again_outcome,
        );
        assert(again_after.machine.state.words_as(after.machine.state)) by {
            assert forall|addr: u32| #[trigger] again_after.machine.state.record_at(addr)
                == after.machine.state.record_at(addr) by {
                assert(last.machine.state.record_at(addr) == again_after.machine.state.record_at(
                    addr,
                ));
            }
        }
    }

    proof fn lemma_started(self, setup: SetupView)
        requires
            self.plain(setup),
            self.fetchable(setup),
            self.machine.sound(),
            self.machine.honest(),
        ensures
            ({
                let start = self.batch_start(setup);
                &&& start.plain(setup)
                &&& start.fetchable(setup)
                &&& start.machine.sound()
                &&& start.machine.honest()
                &&& start.machine.state.registers == self.machine.state.registers
                &&& start.machine.state.allocator == self.machine.state.allocator
                &&& start.machine.state.pages == self.machine.state.pages
                &&& start.machine.state.uninitialized_memory
                    == self.machine.state.uninitialized_memory
                &&& start.machine.log == self.machine.batch_begun().log
            }),
    {
        let start = self.batch_start(setup);
        let image = setup.program.memory_image@;
        assert(start.machine.honest()) by {
            self.machine.lemma_honest(start.machine, 0);
        }
        if self.machine.state.global_clk == 0 {
            self.machine.state.law_loaded(image, 0);
            let loaded = self.machine.state.loaded(image);
            let started = self.machine.state.started(image);
            assert(started.words_as(loaded));
            assert(started.prefetch == loaded.prefetch);
        } else {
            assert(start.machine.state == self.machine.state);
        }
    }

    proof fn lemma_loaded_again(
        self,
        setup: SetupView,
        before: ExecutorView,
        again_start: ExecutorView,
        checkpoint: StateView,
    )
        requires
            self == before.batch_start(setup),
            self.machine.sound(),
            checkpoint == (StateView {
                memory: checkpoint.memory,
                uninitialized_memory: checkpoint.uninitialized_memory,
                ..before.machine.state
            }),
            forall|addr: u32| #[trigger] checkpoint.record_at(addr) == self.machine.state.record_at(
                addr,
            ),
            forall|addr: u32| #[trigger] checkpoint.initial_value(addr)
                == before.machine.state.initial_value(addr),
            again_start.machine.state == if checkpoint.global_clk == 0 {
                checkpoint.started(setup.program.memory_image@)
            } else {
                checkpoint
            },
            again_start.machine.log.unconstrained == before.machine.log.unconstrained,
        ensures
            self.machine.resembles(again_start.machine),
    {
        let image = setup.program.memory_image@;
        let state = self.machine.state;
        let other = again_start.machine.state;
        if checkpoint.global_clk == 0 {
            assert(other.prefetch == before.machine.state.loaded(image).prefetch) by {
                assert(forall|addr: u32| #[trigger] checkpoint.shadowed(addr)
                    == before.machine.state.shadowed(addr));
                assert(other.prefetch =~= before.machine.state.loaded(image).prefetch);
            }
            assert forall|addr: u32| #[trigger] state.record_at(addr) == other.record_at(addr) by {
                before.machine.state.law_loaded(image, addr);
                checkpoint.law_loaded(image, addr);
                assert(checkpoint.record_at(addr) == state.record_at(addr));
                assert(other.record_at(addr) == checkpoint.loaded(image).record_at(addr));
                assert(state.record_at(addr) == before.machine.state.loaded(image).record_at(addr));
            }
        } else {
            assert forall|addr: u32| #[trigger] state.record_at(addr) == other.record_at(addr) by {
                assert(checkpoint.record_at(addr) == state.record_at(addr));
            }
        }
        assert forall|addr: u32| #[trigger] state.initial_value(addr) == other.initial_value(addr) by {
            assert(checkpoint.initial_value(addr) == before.machine.state.initial_value(addr));
        }
    }
}

impl Executor {
    /// An executor that is recovered from the checkpoint of a batch and run ends as the batch has
    /// ended: it succeeds, and the registers, the words, the program counter and the clocks are the
    /// same.
    pub proof fn law_recovered(
        before: Executor,
        after: Executor,
        checkpoint: ExecutionState,
        done: bool,
        count: nat,
        again: Executor,
        again_after: Executor,
        again_outcome: Result<(), ExecutionError>,
    )
        requires
            before@.plain(before.setup()),
            before@.fetchable(before.setup()),
            before@.machine.sound(),
            before@.machine.honest(),
            before@.machine.state.regular(3 * count as int),
            !before@.machine.log.unconstrained,
            !before@.batch_start(before.setup()).goes_on(before.setup(), count),
            before.setup().checkpointed(before@, after@, Ok((checkpoint@, done))),
            again.state == checkpoint,
            again@.machine.log == LogView::initial(),
            again.setup().program == before.setup().program,
            again.setup().max_cycles == before.setup().max_cycles,
            again.ran_as(ExecutorMode::Trace, again_after, again_outcome),
        ensures
            again_outcome is Ok,
            again_after@.machine.state.registers == after@.machine.state.registers,
            again_after@.machine.state.words_as(after@.machine.state),
            again_after@.machine.state.pc == after@.machine.state.pc,
            again_after@.machine.state.clk == after@.machine.state.clk,
            again_after@.machine.state.global_clk == after@.machine.state.global_clk,
    {
        let again_setup = SetupView { print_report: true, ..again.setup() };
        before@.law_replay(
            before.setup(),
            after@,
            checkpoint@,
            done,
            count,
            again.in_mode(ExecutorMode::Trace),
            again_setup,
            again_after@,
            Executor::executed_to(again_outcome),
        );
    }
}

} // verus!
