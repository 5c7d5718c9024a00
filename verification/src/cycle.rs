//! What a cycle of the executor does, and what many of them do.
//!
//! A system call does what its implementation does: what follows from it is stated for every
//! effect that the implementation may have.
use std::sync::Arc;

use vstd::prelude::*;

#[allow(unused_imports)]
use crate::checkpoint::{checkpoint_initial_values, checkpoint_records};
#[allow(unused_imports)]
use crate::error::ExecutionError;
#[allow(unused_imports)]
use crate::events::{MemoryLocalEvent, MemoryRecord};
use crate::hooks::HookRegistry;
use crate::isa::Program;
#[allow(unused_imports)]
use crate::isa::{Instruction, InstructionView, Opcode, Register};
#[allow(unused_imports)]
use crate::loops::LoopPlan;
#[allow(unused_imports)]
use crate::memory::{machine, LogView, MachineView, RuntimeLog};
#[allow(unused_imports)]
use crate::mode::ExecutorMode;
#[allow(unused_imports)]
use crate::prefetch::PrefetchView;
#[allow(unused_imports)]
use crate::state::{page_of, ExecutionState, StateView};
use crate::syscalls::SyscallImpl;
#[allow(unused_imports)]
use crate::syscalls::{
    SyscallArguments, SyscallCacheView, SyscallContext, EXIT_UNCONSTRAINED, HALT, WRITE,
};

verus! {

/// What an executor is set up with. Execution does not change it.
#[verifier::ext_equal]
pub ghost struct SetupView {
    pub program: Program,
    pub print_report: bool,
    pub max_syscall_cycles: u32,
    pub syscall_map: Map<u32, Arc<SyscallImpl>>,
    pub syscall_aliases: Map<u32, u32>,
    pub max_cycles: Option<u64>,
    pub hook_registry: HookRegistry,
}

/// What execution changes: the machine, and the cache of system calls.
#[verifier::ext_equal]
pub ghost struct ExecutorView {
    pub machine: MachineView,
    pub cache: SyscallCacheView,
}

/// How often each system call has been called, after one more call.
pub open spec fn counted(counts: Map<u32, u64>, code: u32) -> Map<u32, u64> {
    let count = if counts.contains_key(code) {
        counts[code]
    } else {
        0
    };
    counts.insert(code, count.wrapping_add(1))
}

impl StateView {
    /// The arguments of a system call, and the state after they have been fetched.
    pub open spec fn call_operands(self) -> (StateView, SyscallArguments) {
        let peeked = self.register_counted(Register::X5 as int);
        let after_c = peeked.register_used(Register::X11);
        (
            after_c.register_used(Register::X10),
            SyscallArguments {
                code: self.registers[Register::X5 as int].value,
                arg1: after_c.register_value(Register::X10),
                arg2: peeked.register_value(Register::X11),
            },
        )
    }

    /// What a system call is told of the machine.
    pub open spec fn call_context(self) -> SyscallContext {
        SyscallContext {
            current_shard: self.current_shard,
            clk: self.clk,
            next_pc: self.pc.wrapping_add(4),
            exit_code: 0,
        }
    }
}

impl StateView {
    /// A page holds the word at an address, so that the sparse memory does not count.
    pub open spec fn shadowed(self, addr: u32) -> bool {
        self.pages.contains_key(page_of(addr)) && self.pages[page_of(addr)].initialized.contains(
            addr,
        )
    }

    /// The state after the words of an image have been put into the sparse memory; the prefetch
    /// buffer follows.
    pub open spec fn loaded(self, image: Map<u32, u32>) -> StateView {
        StateView {
            memory: Map::new(
                |addr: u32| self.memory.contains_key(addr) || image.contains_key(addr),
                |addr: u32|
                    if image.contains_key(addr) {
                        MemoryRecord::untouched(image[addr])
                    } else {
                        self.memory[addr]
                    },
            ),
            prefetch: PrefetchView {
                entries: Seq::new(
                    self.prefetch.entries.len(),
                    |i: int|
                        {
                            let addr = self.prefetch.entries[i].0;
                            if self.prefetch.hit(i, addr) && image.contains_key(addr)
                                && !self.shadowed(addr) {
                                (addr, MemoryRecord::untouched(image[addr]))
                            } else {
                                self.prefetch.entries[i]
                            }
                        },
                ),
                ..self.prefetch
            },
            ..self
        }
    }

    /// The state after one word of an image has been put into the sparse memory.
    pub open spec fn word_loaded(self, addr: u32, value: u32) -> StateView {
        let record = MemoryRecord::untouched(value);
        StateView {
            memory: self.memory.insert(addr, record),
            prefetch: if self.shadowed(addr) {
                self.prefetch
            } else {
                self.prefetch.refreshed(addr, record)
            },
            ..self
        }
    }

    /// An image is loaded word by word.
    pub(crate) proof fn lemma_loaded_word(self, image: Map<u32, u32>, addr: u32, value: u32)
        ensures
            self.loaded(image).word_loaded(addr, value) == self.loaded(image.insert(addr, value)),
    {
        assert(self.loaded(image).word_loaded(addr, value) =~= self.loaded(
            image.insert(addr, value),
        ));
    }

    /// The state before the first instruction: the clock is reset and the memory image is loaded.
    pub open spec fn started(self, image: Map<u32, u32>) -> StateView {
        StateView { clk: 0, ..self.loaded(image) }
    }
}

impl MachineView {
    /// The machine at the start of a batch that is to be checkpointed.
    pub open spec fn batch_begun(self) -> MachineView {
        MachineView {
            log: LogView {
                memory_checkpoint: Map::empty(),
                executor_mode: ExecutorMode::Checkpoint,
                ..self.log
            },
            ..self
        }
    }

    /// The machine after the checkpoint of a batch has been taken.
    pub open spec fn batch_ended(self) -> MachineView {
        MachineView {
            log: LogView {
                memory_checkpoint: Map::empty(),
                uninitialized_memory_checkpoint: Map::empty(),
                ..self.log
            },
            ..self
        }
    }

    /// The checkpoint of a batch that has led from the state `before` to this machine.
    pub open spec fn checkpoint(self, before: StateView, done: bool) -> StateView {
        StateView {
            memory: checkpoint_records(self.state.memory, self.log.memory_checkpoint, done),
            uninitialized_memory: checkpoint_initial_values(
                self.state.uninitialized_memory,
                self.log.uninitialized_memory_checkpoint,
                done,
            ),
            ..before
        }
    }
}

impl MachineView {
    /// The machine after a system call has come back, and what comes out: the result, or the code
    /// where there is none, goes to the register that held the code. A program that halts with
    /// another exit code than zero fails.
    pub open spec fn call_finished(
        self,
        code: u32,
        context: SyscallContext,
        result: Option<u32>,
        cycles: u32,
    ) -> (MachineView, Result<(), ExecutionError>) {
        if code == HALT && context.exit_code != 0 {
            (self, Err(ExecutionError::HaltWithNonZeroExitCode(context.exit_code)))
        } else {
            let value = match result {
                Some(value) => value,
                None => code,
            };
            let written = self.state.register_written(Register::X5, value);
            let state = StateView { clk: written.clk.wrapping_add(cycles), ..written };
            (self.with(state.advanced(context.next_pc)), Ok(()))
        }
    }
}

impl ExecutorView {
    /// The executor with another state.
    pub open spec fn with(self, state: StateView) -> ExecutorView {
        ExecutorView { machine: self.machine.with(state), ..self }
    }

    /// The executor with another list of events.
    pub open spec fn with_events(self, events: Map<u32, MemoryLocalEvent>) -> ExecutorView {
        ExecutorView {
            machine: MachineView {
                log: LogView { local_memory_access: events, ..self.machine.log },
                ..self.machine
            },
            ..self
        }
    }

    /// The implementation that a call of a system call runs: for a hot system call the cached one
    /// where there is one.
    pub open spec fn implementation(self, setup: SetupView, code: u32) -> Option<
        Arc<SyscallImpl>,
    > {
        let cached = self.cache.cached(code, 0);
        if self.machine.state.syscall_stats.hot_syscalls.contains(code) && cached is Some {
            cached
        } else if setup.syscall_map.contains_key(code) {
            Some(setup.syscall_map[code])
        } else {
            None
        }
    }

    /// The executor after the implementation has been looked up: that of a hot system call is
    /// cached.
    pub open spec fn implementation_cached(self, setup: SetupView, code: u32) -> ExecutorView {
        if self.machine.state.syscall_stats.hot_syscalls.contains(code) && self.cache.cached(
            code,
            0,
        ) is None && setup.syscall_map.contains_key(code) {
            ExecutorView { cache: self.cache.inserted(code, setup.syscall_map[code]), ..self }
        } else {
            self
        }
    }

    /// The executor after a system call has been counted.
    pub open spec fn call_counted(self, setup: SetupView, code: u32) -> ExecutorView {
        let counted_as = if setup.syscall_aliases.contains_key(code) {
            setup.syscall_aliases[code]
        } else {
            code
        };
        let state = self.machine.state;
        self.with(
            StateView {
                syscall_counts: counted(state.syscall_counts, counted_as),
                syscall_stats: state.syscall_stats.recorded(code),
                ..state
            },
        )
    }

    /// The executor when a system call is about to run, its arguments, and its implementation. In
    /// unconstrained mode only writes and the end of the mode are allowed.
    pub open spec fn call_prepared(self, setup: SetupView) -> (
        ExecutorView,
        SyscallArguments,
        Result<Arc<SyscallImpl>, ExecutionError>,
    ) {
        let (state, arguments) = self.machine.state.call_operands();
        let code = arguments.code;
        let fetched = self.with(state);
        if self.machine.log.unconstrained && code != EXIT_UNCONSTRAINED && code != WRITE {
            (fetched, arguments, Err(ExecutionError::InvalidSyscallUsage(code as u64)))
        } else {
            let counted = fetched.call_counted(setup, code);
            (
                counted.implementation_cached(setup, code),
                arguments,
                match counted.implementation(setup, code) {
                    Some(implementation) => Ok(implementation),
                    None => Err(ExecutionError::UnsupportedSyscall(code)),
                },
            )
        }
    }

    /// The executor after the scheduler has been told that an instruction has been executed.
    pub open spec fn completed(self, instruction: Instruction) -> ExecutorView {
        let state = self.machine.state;
        self.with(StateView { scheduler: state.scheduler.completed(instruction), ..state })
    }

    /// The instruction at the program counter: the cached one where there is one.
    pub open spec fn fetched(self, setup: SetupView) -> Instruction {
        let state = self.machine.state;
        match state.icache.cached(state.pc) {
            Some(instruction) => instruction,
            None => setup.program.instructions@[setup.program.position(state.pc)],
        }
    }

    /// There is an instruction at the program counter.
    pub open spec fn fetchable(self, setup: SetupView) -> bool {
        let state = self.machine.state;
        state.icache.cached(state.pc) is Some || setup.program.has_instruction(state.pc)
    }

    /// The executor after the instruction at the program counter has been fetched: it is cached.
    pub open spec fn after_fetch(self, setup: SetupView) -> ExecutorView {
        let state = self.machine.state;
        if state.icache.cached(state.pc) is Some {
            self
        } else {
            self.with(
                StateView {
                    icache: state.icache.inserted(state.pc, self.fetched(setup)),
                    ..state
                },
            )
        }
    }

    /// The executor after the program counter has been recorded for loop detection.
    pub open spec fn noted(self) -> ExecutorView {
        let state = self.machine.state;
        self.with(StateView { loops: state.loops.recorded(state.pc), ..state })
    }

    /// The executor when an instruction has been fetched and it is settled how to execute it.
    pub open spec fn cycle_begun(self, setup: SetupView) -> ExecutorView {
        let after = self.noted().after_fetch(setup);
        let state = after.machine.state;
        after.with(StateView { loops: state.loops.planned(state.pc), ..state })
    }

    /// The executor before its first cycle, where it has had none.
    pub open spec fn ready_to_run(self, setup: SetupView) -> ExecutorView {
        let state = self.machine.state;
        if state.global_clk == 0 {
            self.with(state.started(setup.program.memory_image@))
        } else {
            self
        }
    }

    /// The executor at the end of a cycle, and what comes out: whether the program has finished.
    pub open spec fn cycle_ended(self, setup: SetupView) -> (
        ExecutorView,
        Result<bool, ExecutionError>,
    ) {
        let state = self.machine.state;
        let global_clk = state.global_clk.wrapping_add(1);
        let after = self.with(StateView { global_clk, ..state }).noted();
        let done = setup.program.ends_at(state.pc);
        (
            after,
            if setup.max_cycles is Some && global_clk >= setup.max_cycles.unwrap() {
                Err(ExecutionError::ExceededCycleLimit(setup.max_cycles.unwrap()))
            } else if done && self.machine.log.unconstrained {
                Err(ExecutionError::EndInUnconstrained())
            } else {
                Ok(done)
            },
        )
    }
}

impl SetupView {
    /// The implementation of a system call may lead from one executor to another with the given
    /// outcome.
    pub open spec fn ran(
        self,
        implementation: Arc<SyscallImpl>,
        arguments: SyscallArguments,
        before: ExecutorView,
        after: ExecutorView,
        outcome: Result<(), ExecutionError>,
    ) -> bool {
        exists|
            start: (SyscallContext, ExecutionState, RuntimeLog),
            end: (SyscallContext, ExecutionState, RuntimeLog),
            result: Option<u32>,
            cycles: u32,
        |
            {
                &&& #[trigger] implementation.implementation.effect(
                    self.hook_registry,
                    arguments,
                    start,
                    end,
                    result,
                )
                &&& #[trigger] implementation.implementation.takes(cycles)
                &&& start.0 == before.machine.state.call_context()
                &&& machine(start.1, start.2) == before.machine
                &&& (after.machine, outcome) == machine(end.1, end.2).call_finished(
                    arguments.code,
                    end.0,
                    result,
                    cycles,
                )
                &&& after.cache == before.cache
            }
    }

    /// A system call may lead from one executor to another with the given outcome.
    pub open spec fn called(
        self,
        before: ExecutorView,
        after: ExecutorView,
        outcome: Result<(), ExecutionError>,
    ) -> bool {
        let (prepared, arguments, found) = before.call_prepared(self);
        match found {
            Err(error) => after == prepared && outcome == Err::<(), ExecutionError>(error),
            Ok(implementation) => self.ran(implementation, arguments, prepared, after, outcome),
        }
    }

    /// An instruction may lead from one executor to another with the given outcome.
    #[verifier::opaque]
    pub open spec fn stepped(
        self,
        before: ExecutorView,
        instruction: InstructionView,
        after: ExecutorView,
        outcome: Result<(), ExecutionError>,
    ) -> bool {
        if instruction.opcode == Opcode::ECALL {
            self.called(before.with(before.machine.state.predicted()), after, outcome)
        } else {
            &&& (after.machine, outcome) == before.machine.executed(instruction)
            &&& after.cache == before.cache
        }
    }

    /// The first `count` instructions of a list may lead from one executor to another.
    pub open spec fn steps(
        self,
        before: ExecutorView,
        list: Seq<Instruction>,
        count: nat,
        after: ExecutorView,
    ) -> bool
        decreases count,
    {
        if count == 0 {
            after == before
        } else {
            let instruction = list[count - 1];
            exists|start: ExecutorView, end: ExecutorView, outcome: Result<(), ExecutionError>|
                {
                    &&& self.steps(before, list, (count - 1) as nat, start)
                    &&& #[trigger] self.stepped(start, instruction@, end, outcome)
                    &&& outcome is Ok
                    &&& after == end.completed(instruction)
                }
        }
    }

    /// A list of instructions may lead from one executor to another with the given outcome: all
    /// are executed, or one fails after those before it have been.
    pub open spec fn all_stepped(
        self,
        before: ExecutorView,
        list: Seq<Instruction>,
        after: ExecutorView,
        outcome: Result<(), ExecutionError>,
    ) -> bool {
        match outcome {
            Ok(_) => self.steps(before, list, list.len(), after),
            Err(_) => exists|count: nat, start: ExecutorView|
                {
                    &&& count < list.len()
                    &&& #[trigger] self.steps(before, list, count, start)
                    &&& self.stepped(start, list[count as int]@, after, outcome)
                },
        }
    }

    /// An instruction that comes in may lead from one executor to another with the given outcome:
    /// what the scheduler issues is executed.
    #[verifier::opaque]
    pub open spec fn issued(
        self,
        before: ExecutorView,
        instruction: Instruction,
        after: ExecutorView,
        outcome: Result<(), ExecutionError>,
    ) -> bool {
        let state = before.machine.state;
        let (scheduler, ready) = state.scheduler.scheduled(instruction);
        let scheduled = before.with(StateView { scheduler, ..state });
        self.all_stepped(scheduled, ready, after, outcome)
    }

    /// The end of a cycle in which `instruction` has been fetched may lead from one executor to
    /// another with the given outcome.
    #[verifier::opaque]
    pub open spec fn cycle_finished(
        self,
        before: ExecutorView,
        instruction: Instruction,
        after: ExecutorView,
        outcome: Result<bool, ExecutionError>,
    ) -> bool {
        exists|last: ExecutorView, executed: Result<(), ExecutionError>| #[trigger]
            self.issued(before, instruction, last, executed) && match executed {
                Ok(_) => (after, outcome) == last.cycle_ended(self),
                Err(error) => after == last && outcome == Err::<bool, ExecutionError>(error),
            }
    }

    /// A cycle may lead from one executor to another with the given outcome.
    pub open spec fn cycled(
        self,
        before: ExecutorView,
        after: ExecutorView,
        outcome: Result<bool, ExecutionError>,
    ) -> bool {
        self.cycle_finished(before.cycle_begun(self), before.noted().fetched(self), after, outcome)
    }

    /// A number of cycles, none of which ends the program, may lead from one executor to another.
    pub open spec fn cycles(self, before: ExecutorView, count: nat, after: ExecutorView) -> bool
        decreases count,
    {
        if count == 0 {
            after == before
        } else {
            exists|middle: ExecutorView|
                {
                    &&& self.cycles(before, (count - 1) as nat, middle)
                    &&& #[trigger] self.cycled(middle, after, Ok(false))
                }
        }
    }

    /// Execution may lead from one executor to another with the given outcome: cycles go by until
    /// one ends the program or fails, or until there have been as many as can be counted.
    pub open spec fn completed(
        self,
        before: ExecutorView,
        after: ExecutorView,
        outcome: Result<bool, ExecutionError>,
    ) -> bool {
        ||| exists|count: nat, last: ExecutorView|
            {
                &&& count < u64::MAX
                &&& #[trigger] self.cycles(before, count, last)
                &&& self.cycled(last, after, outcome)
                &&& outcome != Ok::<bool, ExecutionError>(false)
            }
        ||| {
            &&& self.cycles(before, u64::MAX as nat, after)
            &&& outcome == Err::<bool, ExecutionError>(
                ExecutionError::ExceededCycleLimit(u64::MAX),
            )
        }
    }

    /// Execution, from the loading of the program on, may lead from one executor to another with
    /// the given outcome.
    pub open spec fn executed(
        self,
        before: ExecutorView,
        after: ExecutorView,
        outcome: Result<bool, ExecutionError>,
    ) -> bool {
        self.completed(before.ready_to_run(self), after, outcome)
    }

    /// The execution of a batch that is checkpointed may lead from one executor to another with
    /// the given outcome: the checkpoint from before the batch, and whether the program has ended.
    pub open spec fn checkpointed(
        self,
        before: ExecutorView,
        after: ExecutorView,
        outcome: Result<(StateView, bool), ExecutionError>,
    ) -> bool {
        let start = ExecutorView { machine: before.machine.batch_begun(), ..before };
        exists|last: ExecutorView, executed: Result<bool, ExecutionError>| #[trigger]
            self.executed(start, last, executed) && match executed {
                Ok(done) => {
                    &&& after == (ExecutorView { machine: last.machine.batch_ended(), ..last })
                    &&& outcome == Ok::<(StateView, bool), ExecutionError>(
                        (last.machine.checkpoint(before.machine.state, done), done),
                    )
                },
                Err(error) => {
                    &&& after == last
                    &&& outcome == Err::<(StateView, bool), ExecutionError>(error)
                },
            }
    }
}

} // verus!
