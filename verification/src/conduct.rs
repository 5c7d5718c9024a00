//! What cycles, runs and system calls do: laws on what an executor holds before and after them.
use std::sync::Arc;

use vstd::prelude::*;

#[allow(unused_imports)]
use crate::cycle::{ExecutorView, SetupView};
#[allow(unused_imports)]
use crate::error::ExecutionError;
#[allow(unused_imports)]
use crate::events::MemoryRecord;
use crate::context::Environment;
use crate::executor::Executor;
#[allow(unused_imports)]
use crate::executor::{largest, may_report};
#[allow(unused_imports)]
use crate::isa::{Instruction, InstructionView, Opcode, Register};
#[allow(unused_imports)]
use crate::meaning::record_of;
#[allow(unused_imports)]
use crate::memory::{machine, LogView, MachineView, RuntimeLog};
#[allow(unused_imports)]
use crate::mode::ExecutorMode;
#[allow(unused_imports)]
use crate::state::{ExecutionState, StateView};
use crate::syscalls::SyscallImpl;
#[allow(unused_imports)]
use crate::syscalls::{SyscallArguments, SyscallCacheView, SyscallContext};

verus! {

impl ExecutorView {
    /// Nothing waits in the scheduler, the instruction cache is faithful, and the instructions of the
    /// program are well-formed. The program may make system calls.
    pub open spec fn poised(self, setup: SetupView) -> bool {
        &&& self.machine.state.scheduler.idle()
        &&& self.faithful(setup)
        &&& forall|i: int|
            0 <= i < setup.program.instructions@.len() ==> (
            #[trigger] setup.program.instructions@[i]).well_formed()
    }
}

impl SetupView {
    /// A cycle executes one instruction: the one that lies at the distance of the program counter from
    /// the start of the program. It finds the state as it was, but for the scheduler, the loop tracker
    /// and the instruction cache. If it fails, the cycle fails with the same error. If it does not, the
    /// cycle is counted; the cycle fails at the limit of cycles, says whether the program has ended,
    /// which is so at address zero and outside the program, and does not let it end in unconstrained
    /// mode.
    pub proof fn law_one_instruction(
        self,
        before: ExecutorView,
        after: ExecutorView,
        outcome: Result<bool, ExecutionError>,
    ) -> (step: (ExecutorView, ExecutorView, Result<(), ExecutionError>))
        requires
            self.cycled(before, after, outcome),
            before.poised(self),
            before.fetchable(self),
        ensures
            ({
                let (start, end, executed) = step;
                let old_state = before.machine.state;
                let distance = (old_state.pc - self.program.pc_base) % 0x1_0000_0000;
                let size = self.program.instructions@.len() as int;
                &&& distance / 4 < size
                &&& self.stepped(
                    start,
                    self.program.instructions@[distance / 4]@,
                    end,
                    executed,
                )
                &&& start.machine.state == (StateView {
                    scheduler: start.machine.state.scheduler,
                    loops: start.machine.state.loops,
                    icache: start.machine.state.icache,
                    ..old_state
                })
                &&& start.machine.state.scheduler == old_state.scheduler.scheduled(
                    self.program.instructions@[distance / 4],
                ).0
                &&& start.machine.state.loops == old_state.loops.recorded(old_state.pc).planned(
                    old_state.pc,
                )
                &&& start.machine.state.icache == if old_state.icache.cached(old_state.pc) is Some {
                    old_state.icache
                } else {
                    old_state.icache.inserted(
                        old_state.pc,
                        self.program.instructions@[distance / 4],
                    )
                }
                &&& start.machine.log == before.machine.log
                &&& start.cache == before.cache
                &&& match executed {
                    Err(error) => after == end && outcome == Err::<bool, ExecutionError>(error),
                    Ok(_) => {
                        let done = end.machine.state.pc == 0 || (end.machine.state.pc
                            - self.program.pc_base) % 0x1_0000_0000 >= (4 * size) % 0x1_0000_0000;
                        &&& after.machine.state == (StateView {
                            scheduler: after.machine.state.scheduler,
                            loops: after.machine.state.loops,
                            global_clk: end.machine.state.global_clk.wrapping_add(1),
                            ..end.machine.state
                        })
                        &&& after.machine.state.scheduler == end.machine.state.scheduler.completed(
                            self.program.instructions@[distance / 4],
                        )
                        &&& after.machine.state.loops == end.machine.state.loops.recorded(
                            end.machine.state.pc,
                        )
                        &&& after.machine.log == end.machine.log
                        &&& after.cache == end.cache
                        &&& outcome == if self.max_cycles is Some
                            && end.machine.state.global_clk.wrapping_add(1)
                            >= self.max_cycles.unwrap() {
                            Err::<bool, ExecutionError>(
                                ExecutionError::ExceededCycleLimit(self.max_cycles.unwrap()),
                            )
                        } else if done && end.machine.log.unconstrained {
                            Err(ExecutionError::EndInUnconstrained())
                        } else {
                            Ok(done)
                        }
                    },
                }
            }),
    {
        let begun = before.cycle_begun(self);
        let instruction = before.noted().fetched(self);
        before.law_fetch(self);
        assert(instruction == before.fetched(self));
        before.machine.state.scheduler.law_idle(instruction);
        reveal(SetupView::cycle_finished);
        reveal(SetupView::issued);
        let (last, result) = choose|last: ExecutorView, result: Result<(), ExecutionError>|
            #[trigger]
            self.issued(begun, instruction, last, result) && match result {
                Ok(_) => (after, outcome) == last.cycle_ended(self),
                Err(error) => after == last && outcome == Err::<bool, ExecutionError>(error),
            };
        let list = seq![instruction];
        let scheduled = begun.scheduled(instruction);
        assert(self.all_stepped(scheduled, list, last, result));
        match result {
            Ok(_) => {
                assert(self.steps(scheduled, list, 1, last));
                let (start, stop, executed) = choose|
                    start: ExecutorView,
                    stop: ExecutorView,
                    executed: Result<(), ExecutionError>,
                |
                    {
                        &&& self.steps(scheduled, list, 0, start)
                        &&& #[trigger] self.stepped(start, list[0]@, stop, executed)
                        &&& executed is Ok
                        &&& last == stop.completed(list[0])
                    };
                assert(start == scheduled);
                (start, stop, executed)
            },
            Err(_) => {
                let (count, start) = choose|count: nat, start: ExecutorView|
                    {
                        &&& count < list.len()
                        &&& #[trigger] self.steps(scheduled, list, count, start)
                        &&& self.stepped(start, list[count as int]@, last, result)
                    };
                assert(count == 0);
                assert(start == scheduled);
                (start, last, result)
            },
        }
    }

    /// Execution that does not fail has ended the program: it is at address zero or outside the
    /// program, not in unconstrained mode, and below the limit of cycles.
    pub proof fn law_run_end(
        self,
        before: ExecutorView,
        after: ExecutorView,
        outcome: Result<bool, ExecutionError>,
    )
        requires
            self.executed(before, after, outcome),
        ensures
            outcome != Ok::<bool, ExecutionError>(false),
            outcome is Ok ==> {
                &&& after.machine.state.pc == 0 || (after.machine.state.pc - self.program.pc_base)
                    % 0x1_0000_0000 >= (4 * self.program.instructions@.len()) % 0x1_0000_0000
                &&& !after.machine.log.unconstrained
                &&& self.max_cycles matches Some(limit) ==> after.machine.state.global_clk < limit
            },
    {
        let start = before.ready_to_run(self);
        if outcome is Ok {
            let (count, last) = choose|count: nat, last: ExecutorView|
                {
                    &&& count < u64::MAX
                    &&& #[trigger] self.cycles(start, count, last)
                    &&& self.cycled(last, after, outcome)
                    &&& outcome != Ok::<bool, ExecutionError>(false)
                };
            self.law_cycle_outcome(last, after, outcome);
        }
    }

    /// Before its first cycle an executor loads the image of its program: every word of the image has
    /// its value, dated at time zero of shard zero, and the clock is at zero. All else stays. An
    /// executor that has had a cycle is left as it is.
    pub proof fn law_start(self, before: ExecutorView, addr: u32)
        requires
            before.machine.state.pages == Map::<u32, crate::state::PageView>::empty(),
        ensures
            ({
                let old_state = before.machine.state;
                let after = before.ready_to_run(self);
                let new_state = after.machine.state;
                let image = self.program.memory_image@;
                &&& old_state.global_clk != 0 ==> after == before
                &&& old_state.global_clk == 0 ==> {
                    &&& new_state.clk == 0
                    &&& new_state.memory.get(addr) == if image.contains_key(addr) {
                        Some(MemoryRecord { value: image[addr], shard: 0, timestamp: 0 })
                    } else {
                        old_state.memory.get(addr)
                    }
                    &&& new_state == (StateView {
                        clk: new_state.clk,
                        memory: new_state.memory,
                        prefetch: new_state.prefetch,
                        ..old_state
                    })
                    &&& after.machine.log == before.machine.log
                    &&& after.cache == before.cache
                }
            }),
    {
    }
}

/// A new state is at the start of its program, in shard one at time zero, with 32 registers that hold
/// zero, no memory and no input, and nothing learned.
pub proof fn law_new_state(pc_start: u32, i: int)
    requires
        0 <= i < 32,
    ensures
        ({
            let state = StateView::initial(pc_start);
            &&& state.pc == pc_start
            &&& state.current_shard == 1
            &&& state.clk == 0
            &&& state.global_clk == 0
            &&& state.registers.len() == 32
            &&& state.registers[i] == (MemoryRecord { value: 0, shard: 0, timestamp: 0 })
            &&& state.register_access_count.len() == 32
            &&& state.register_access_count[i] == 0
            &&& state.memory == Map::<u32, MemoryRecord>::empty()
            &&& state.pages.dom() == Set::<u32>::empty()
            &&& state.page_cache == Set::<u32>::empty()
            &&& state.uninitialized_memory == Map::<u32, u32>::empty()
            &&& state.input_stream.len() == 0
            &&& state.input_stream_ptr == 0
            &&& state.proof_stream_ptr == 0
            &&& state.public_values_stream.len() == 0
            &&& state.public_values_stream_ptr == 0
            &&& state.syscall_counts == Map::<u32, u64>::empty()
            &&& state.allocator.access_counts.len() == 32 && state.allocator.access_counts[i] == 0
            &&& state.allocator.spill_counts.len() == 32 && state.allocator.spill_counts[i] == 0
            &&& state.allocator.live_ranges.dom() == Set::<u32>::empty()
            &&& state.scheduler.window.len() == 0
            &&& state.scheduler.in_flight == Map::<u32, u32>::empty()
            &&& state.loops.history.len() == 0
            &&& state.loops.loops.dom() == Set::<u32>::empty()
            &&& state.loops.active_loop is None
            &&& state.loops.stats.total_loops == 0
            &&& state.loops.stats.unrolled_loops == 0
            &&& state.loops.stats.vectorized_loops == 0
            &&& state.loops.stats.total_iterations == 0
            &&& state.loops.stats.unrolled_iterations == 0
            &&& state.loops.stats.vectorized_iterations == 0
            &&& state.accesses.history.len() == 0
            &&& state.accesses.temporal.len() == 0
            &&& state.accesses.patterns.dom() == Set::<u32>::empty()
            &&& state.accesses.regions.dom() == Set::<u32>::empty()
            &&& state.accesses.stats.total_accesses == 0
            &&& state.accesses.stats.temporal_hits == 0
            &&& state.accesses.stats.stream_hits == 0
            &&& state.accesses.stats.pattern_hits == 0
            &&& state.accesses.stats.spatial_hits == 0
            &&& state.accesses.streams.len() == 8
            &&& i < 8 ==> !state.accesses.streams[i].valid && state.accesses.streams[i].hits == 0
                && state.accesses.streams[i].prefetch_addrs.len() == 0
            &&& state.syscall_stats.total_calls == 0
            &&& state.syscall_stats.hot_syscalls == Set::<u32>::empty()
            &&& state.syscall_stats.call_counts == Map::<u32, u32>::empty()
            &&& state.branch.total_predictions == 0 && state.branch.correct_predictions == 0
            &&& state.branch.return_stack.len() == 0
            &&& state.branch.btb == Map::<u32, u32>::empty()
            &&& state.prefetch.valid.len() == 32 && !state.prefetch.valid[i]
            &&& state.prefetch.next_slot == 0
            &&& state.stride.entries.len() == 16 && state.stride.next_slot == 0
            &&& i < 16 ==> state.stride.entries[i] == (0u32, 0i32)
            &&& state.icache.slots.len() == 1024
            &&& forall|k: int| 0 <= k < 1024 ==> #[trigger] state.icache.slots[k] is None
            &&& state.branch.local_history.len() == 1024
            &&& forall|k: int| 0 <= k < 1024 ==> #[trigger] state.branch.local_history[k] == 0
            &&& state.branch.pattern_table.len() == 256
            &&& forall|k: int| 0 <= k < 256 ==> #[trigger] state.branch.pattern_table[k] == 2
            &&& state.branch.global_history == 0
            &&& state.scheduler.issue_slots.len() == 4
            &&& i < 4 ==> state.scheduler.issue_slots[i]
            &&& state.allocator.current_function_start == 0
        }),
        ({
            let cache = SyscallCacheView::initial();
            &&& cache.slots.len() == 64
            &&& cache.slots[i] is None
            &&& cache.next_slot == 0
        }),
        ({
            let log = LogView::initial();
            &&& log.executor_mode == ExecutorMode::Trace
            &&& !log.unconstrained
            &&& log.memory_checkpoint == Map::<u32, Option<MemoryRecord>>::empty()
            &&& log.uninitialized_memory_checkpoint == Map::<u32, bool>::empty()
            &&& log.local_memory_access.dom() == Set::<u32>::empty()
            &&& log.io_buf.dom() == Set::<u32>::empty()
            &&& log.unconstrained_state.memory_diff == Map::<u32, Option<MemoryRecord>>::empty()
            &&& log.unconstrained_state.executor_mode == ExecutorMode::Simple
            &&& log.unconstrained_state.global_clk == 0
            &&& log.unconstrained_state.clk == 0
            &&& log.unconstrained_state.pc == 0
        }),
{
    let state = StateView::initial(pc_start);
    assert(state.pages.dom() =~= Set::<u32>::empty());
    assert(state.allocator.live_ranges.dom() =~= Set::<u32>::empty());
    assert(state.loops.loops.dom() =~= Set::<u32>::empty());
    assert(state.accesses.patterns.dom() =~= Set::<u32>::empty());
    assert(state.accesses.regions.dom() =~= Set::<u32>::empty());
    assert(LogView::initial().local_memory_access.dom() =~= Set::<u32>::empty());
    assert(LogView::initial().io_buf.dom() =~= Set::<u32>::empty());
}

impl SetupView {
    proof fn lemma_call_step(
        self,
        before: ExecutorView,
        instruction: InstructionView,
        after: ExecutorView,
        outcome: Result<(), ExecutionError>,
    )
        requires
            self.stepped(before, instruction, after, outcome),
            instruction.opcode == Opcode::ECALL,
        ensures
            self.called(before.with(before.machine.state.predicted()), after, outcome),
    {
        reveal(SetupView::stepped);
    }

    /// A system call is named by the fifth register. In unconstrained mode all calls but the two with
    /// the numbers two and four are refused, and are not counted. A call that the executor has no
    /// implementation of fails, and is counted. Neither changes a register, a word, the program counter
    /// or the clock.
    pub proof fn law_call_refused(
        self,
        before: ExecutorView,
        instruction: InstructionView,
        after: ExecutorView,
        outcome: Result<(), ExecutionError>,
    )
        requires
            self.stepped(before, instruction, after, outcome),
            instruction.opcode == Opcode::ECALL,
            before.calls_faithful(self),
            ({
                let code = before.machine.state.registers[5].value;
                ||| before.machine.log.unconstrained && code != 2 && code != 4
                ||| !self.syscall_map.contains_key(code)
            }),
        ensures
            ({
                let old_state = before.machine.state;
                let new_state = after.machine.state;
                let code = old_state.registers[5].value;
                let refused = before.machine.log.unconstrained && code != 2 && code != 4;
                let name = if self.syscall_aliases.contains_key(code) {
                    self.syscall_aliases[code]
                } else {
                    code
                };
                &&& outcome == if refused {
                    Err::<(), ExecutionError>(ExecutionError::InvalidSyscallUsage(code as u64))
                } else {
                    Err(ExecutionError::UnsupportedSyscall(code))
                }
                &&& new_state.registers == old_state.registers
                &&& new_state.memory == old_state.memory
                &&& new_state.pages == old_state.pages
                &&& new_state.pc == old_state.pc
                &&& new_state.clk == old_state.clk
                &&& new_state.global_clk == old_state.global_clk
                &&& after.machine.log == before.machine.log
                &&& refused ==> new_state.syscall_counts == old_state.syscall_counts
                    && new_state.syscall_stats == old_state.syscall_stats
                &&& !refused ==> {
                    &&& new_state.syscall_counts.dom() == old_state.syscall_counts.dom().insert(name)
                    &&& forall|other: u32|
                        other != name ==> #[trigger] new_state.syscall_counts.get(other)
                            == old_state.syscall_counts.get(other)
                    &&& new_state.syscall_counts[name] == match old_state.syscall_counts.get(name) {
                        Some(count) => count.wrapping_add(1),
                        None => 1,
                    }
                }
            }),
    {
        self.lemma_call_step(before, instruction, after, outcome);
        let asked = before.with(before.machine.state.predicted());
        let code = before.machine.state.registers[5].value;
        assert(asked.machine.state.value_of(5) == code);
        let (state, arguments) = asked.machine.state.call_operands();
        let counted = asked.with(state).call_counted(self, code);
        assert(counted.calls_faithful(self));
        counted.law_cache_transparent(self, code);
        let name = if self.syscall_aliases.contains_key(code) {
            self.syscall_aliases[code]
        } else {
            code
        };
        if !(before.machine.log.unconstrained && code != 2 && code != 4) {
            assert(after.machine.state.syscall_counts.dom()
                =~= before.machine.state.syscall_counts.dom().insert(name));
        }
    }

    /// A system call that is allowed and known runs the implementation that the executor has for the
    /// number in the fifth register, with the tenth and the eleventh register as arguments. It is
    /// counted before it runs, and finds registers, memory and log as they were, the next word as the
    /// address to go on at, and an exit code of zero.
    pub proof fn law_call_runs(
        self,
        before: ExecutorView,
        instruction: InstructionView,
        after: ExecutorView,
        outcome: Result<(), ExecutionError>,
    ) -> (call: (
        (SyscallContext, ExecutionState, RuntimeLog),
        (SyscallContext, ExecutionState, RuntimeLog),
        Option<u32>,
        u32,
    ))
        requires
            self.stepped(before, instruction, after, outcome),
            instruction.opcode == Opcode::ECALL,
            before.calls_faithful(self),
            before.machine.state.regular(2),
            ({
                let code = before.machine.state.registers[5].value;
                &&& self.syscall_map.contains_key(code)
                &&& before.machine.log.unconstrained ==> code == 2 || code == 4
            }),
        ensures
            ({
                let (start, end, result, cycles) = call;
                let old_state = before.machine.state;
                let found = start.1@;
                let code = old_state.registers[5].value;
                let name = if self.syscall_aliases.contains_key(code) {
                    self.syscall_aliases[code]
                } else {
                    code
                };
                &&& self.syscall_map[code].implementation.effect(
                    self.hook_registry,
                    SyscallArguments {
                        code,
                        arg1: old_state.registers[10].value,
                        arg2: old_state.registers[11].value,
                    },
                    start,
                    end,
                    result,
                )
                &&& self.syscall_map[code].implementation.takes(cycles)
                &&& start.0.current_shard == old_state.current_shard
                &&& start.0.clk == old_state.clk
                &&& start.0.next_pc == old_state.pc.wrapping_add(4)
                &&& start.0.exit_code == 0
                &&& found == (StateView {
                    register_access_count: found.register_access_count,
                    allocator: found.allocator,
                    branch: found.branch,
                    syscall_counts: found.syscall_counts,
                    syscall_stats: found.syscall_stats,
                    ..old_state
                })
                &&& forall|other: u32|
                    other != name ==> #[trigger] found.syscall_counts.get(other)
                        == old_state.syscall_counts.get(other)
                &&& found.syscall_stats == old_state.syscall_stats.recorded(code)
                &&& found.allocator == old_state.allocator.recorded(
                    Register::X11,
                    old_state.pc,
                ).recorded(Register::X10, old_state.pc)
                &&& found.branch == old_state.branch.asked()
                &&& found.register_access_count == old_state.register_access_count.update(
                    5,
                    old_state.register_access_count[5].wrapping_add(1),
                )
                &&& found.syscall_counts.contains_key(name)
                &&& found.syscall_counts[name] == match old_state.syscall_counts.get(name) {
                    Some(count) => count.wrapping_add(1),
                    None => 1,
                }
                &&& machine(start.1, start.2).log == before.machine.log
                &&& (after.machine, outcome) == machine(end.1, end.2).call_finished(
                    code,
                    end.0,
                    result,
                    cycles,
                )
            }),
    {
        self.lemma_call_step(before, instruction, after, outcome);
        let asked = before.with(before.machine.state.predicted());
        let code = before.machine.state.registers[5].value;
        let peeked = asked.machine.state.register_counted(Register::X5 as int);
        assert(peeked.regular(2));
        peeked.lemma_used(Register::X11, 2);
        let after_c = peeked.register_used(Register::X11);
        after_c.lemma_used(Register::X10, 1);
        let (prepared, arguments, implementation) = asked.call_prepared(self);
        let (state, operands) = asked.machine.state.call_operands();
        let counted = asked.with(state).call_counted(self, code);
        assert(counted.calls_faithful(self));
        counted.law_cache_transparent(self, code);
        let syscall = self.syscall_map[code];
        assert(self.ran(syscall, arguments, prepared, after, outcome));
        let (start, end, result, cycles) = choose|
            start: (SyscallContext, ExecutionState, RuntimeLog),
            end: (SyscallContext, ExecutionState, RuntimeLog),
            result: Option<u32>,
            cycles: u32,
        |
            {
                &&& #[trigger] syscall.implementation.effect(
                    self.hook_registry,
                    arguments,
                    start,
                    end,
                    result,
                )
                &&& #[trigger] syscall.implementation.takes(cycles)
                &&& start.0 == prepared.machine.state.call_context()
                &&& machine(start.1, start.2) == prepared.machine
                &&& (after.machine, outcome) == machine(end.1, end.2).call_finished(
                    arguments.code,
                    end.0,
                    result,
                    cycles,
                )
                &&& after.cache == prepared.cache
            };
        assert(machine(start.1, start.2).state == start.1@);
        (start, end, result, cycles)
    }
}

impl MachineView {
    /// After a system call has come back, a program that halts with another exit code than zero fails
    /// with that code. Otherwise the result goes to the fifth register, the number of the call where
    /// there is none, the clock is as many steps on as the call takes and four more, and execution goes
    /// on where the call says.
    pub proof fn law_call_result(
        self,
        code: u32,
        context: SyscallContext,
        result: Option<u32>,
        cycles: u32,
    )
        requires
            self.state.regular(1),
        ensures
            ({
                let (after, outcome) = self.call_finished(code, context, result, cycles);
                let failed = code == 0 && context.exit_code != 0;
                &&& failed ==> after == self && outcome == Err::<(), ExecutionError>(
                    ExecutionError::HaltWithNonZeroExitCode(context.exit_code),
                )
                &&& !failed ==> {
                    &&& outcome is Ok
                    &&& after.state.registers.len() == 32
                    &&& after.state.registers[5] == (MemoryRecord {
                        value: match result {
                            Some(value) => value,
                            None => code,
                        },
                        shard: self.state.current_shard,
                        timestamp: self.state.clk.wrapping_add(3),
                    })
                    &&& forall|i: int|
                        0 <= i < 32 && i != 5 ==> #[trigger] after.state.registers[i]
                            == self.state.registers[i]
                    &&& after.state.clk == self.state.clk.wrapping_add(cycles).wrapping_add(4)
                    &&& after.state.pc == context.next_pc
                    &&& after.state.memory == self.state.memory
                    &&& after.state.pages == self.state.pages
                    &&& after.state.global_clk == self.state.global_clk
                    &&& after.log == self.log
                }
            }),
    {
        self.state.lemma_access(Register::X5);
    }
}

impl Executor {
    /// A run changes nothing of what the executor is set up with but that a report is to be printed,
    /// and it leaves the executor in the mode of the run where the program makes no system calls.
    pub proof fn law_run_mode(
        before: Executor,
        mode: ExecutorMode,
        after: Executor,
        outcome: Result<(), ExecutionError>,
    )
        requires
            before.ran_as(mode, after, outcome),
            before@.plain(before.setup()),
            before@.fetchable(before.setup()),
        ensures
            after.setup().print_report,
            after.setup().program == before.setup().program,
            after.setup().max_cycles == before.setup().max_cycles,
            after.setup().max_syscall_cycles == before.setup().max_syscall_cycles,
            after.setup().syscall_map == before.setup().syscall_map,
            after.setup().syscall_aliases == before.setup().syscall_aliases,
            after.setup().hook_registry == before.setup().hook_registry,
            after@.machine.log.executor_mode == mode,
            after@.machine.log.unconstrained == before@.machine.log.unconstrained,
            after@.machine.log.io_buf == before@.machine.log.io_buf,
            outcome is Ok ==> {
                &&& after@.machine.state.pc == 0 || (after@.machine.state.pc
                    - before.setup().program.pc_base) % 0x1_0000_0000 >= (4
                    * before.setup().program.instructions@.len()) % 0x1_0000_0000
                &&& !after@.machine.log.unconstrained
            },
    {
        let setup = SetupView { print_report: true, ..before.setup() };
        let start = before.in_mode(mode).ready_to_run(setup);
        setup.law_run_end(before.in_mode(mode), after@, Executor::executed_to(outcome));
        assert(start.plain(setup));
        assert(start.fetchable(setup));
        let count = start.law_completed(setup, after@, Executor::executed_to(outcome));
        start.lemma_log_kept(setup, count);
        if count < u64::MAX {
            start.after_cycles(setup, count).lemma_cycle_log(setup);
        }
    }
}

impl ExecutorView {
    proof fn lemma_cycle_log(self, setup: SetupView)
        ensures
            ({
                let after = self.plain_cycle(setup).0.machine.log;
                &&& after.executor_mode == self.machine.log.executor_mode
                &&& after.unconstrained == self.machine.log.unconstrained
                &&& after.io_buf == self.machine.log.io_buf
            }),
    {
        reveal(ExecutorView::plain_cycle);
        let instruction = self.noted().fetched(setup);
        self.before_execution(setup).law_untouched(instruction@);
    }

    proof fn lemma_log_kept(self, setup: SetupView, count: nat)
        ensures
            ({
                let after = self.after_cycles(setup, count).machine.log;
                &&& after.executor_mode == self.machine.log.executor_mode
                &&& after.unconstrained == self.machine.log.unconstrained
                &&& after.io_buf == self.machine.log.io_buf
            }),
        decreases count,
    {
        if count > 0 {
            self.lemma_log_kept(setup, (count - 1) as nat);
            self.after_cycles(setup, (count - 1) as nat).lemma_cycle_log(setup);
        }
    }
}

impl ExecutorView {
    /// A hot system call runs its cached implementation where there is one, any other the one of the map.
    /// The implementation of a hot system call is cached when it is looked up and not cached yet; in all
    /// other cases the cache stays. Nothing else changes.
    pub proof fn law_caching(self, setup: SetupView, code: u32)
        ensures
            ({
                let after = self.implementation_cached(setup, code);
                let hot = self.machine.state.syscall_stats.hot_syscalls.contains(code);
                let known = setup.syscall_map.contains_key(code);
                &&& after.machine == self.machine
                &&& !hot || !known || self.cache.cached(code, 0) is Some ==> after.cache == self.cache
                &&& hot && known && self.cache.cached(code, 0) is None ==> after.cache
                    == self.cache.inserted(code, setup.syscall_map[code])
                &&& self.implementation(setup, code) == if hot && self.cache.cached(code, 0) is Some {
                    self.cache.cached(code, 0)
                } else {
                    setup.syscall_map.get(code)
                }
            }),
    {
    }
}

impl Executor {
    /// An executor has just the system calls and the other names of system calls that its environment
    /// has, and knows the largest number of extra cycles that they have reported, zero where it has none.
    pub proof fn law_offers(self, environment: Environment)
        requires
            self.offers(environment),
        ensures
            self.setup().syscall_map == environment.syscall_map@,
            self.setup().syscall_aliases == environment.syscall_aliases@,
            environment.syscall_map@.dom() == Set::<u32>::empty() ==> self.setup().max_syscall_cycles
                == 0,
            self.setup().max_syscall_cycles > 0 ==> exists|code: u32| #[trigger]
                environment.syscall_map@.contains_key(code)
                    && environment.syscall_map@[code].implementation.takes(
                    self.setup().max_syscall_cycles,
                ),
    {
        let reported = choose|reported: Map<u32, u32>| #[trigger]
            may_report(environment.syscall_map@, reported) && largest(
                reported,
                self.setup().max_syscall_cycles,
            );
        if self.setup().max_syscall_cycles > 0 {
            let code = choose|code: u32| #[trigger]
                reported.contains_key(code) && reported[code] == self.setup().max_syscall_cycles;
            assert(reported.contains_key(code));
            assert(environment.syscall_map@.contains_key(code));
        }
    }
}

} // verus!
