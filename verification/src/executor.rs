//! The executor: it runs a program and keeps track of what happens.
use std::sync::Arc;

use vstd::prelude::*;

use crate::alu::alu;
#[allow(unused_imports)]
use crate::alu::{alu_result, signed};
use crate::checkpoint::{build_initial_values, build_records};
use crate::context::{Environment, SP1Context};
#[allow(unused_imports)]
use crate::cycle::{ExecutorView, SetupView};
use crate::error::ExecutionError;
use crate::events::{
    MemoryAccessPosition, MemoryLocalEvent, MemoryReadRecord, MemoryRecord, MemoryWriteRecord,
};
#[allow(unused_imports)]
use crate::hooks::reply_contents;
use crate::hooks::{HookEnv, HookError, HookRegistry};
use crate::isa::{Instruction, Opcode, Program, Register};
use crate::lanes::{load, select_byte, store};
use crate::loops::LoopPlan;
#[allow(unused_imports)]
use crate::lanes::{byte_lane, byte_of};
#[allow(unused_imports)]
use crate::machine::{branch_taken, spill_address, word_address};
#[allow(unused_imports)]
use crate::memory::{events_after, machine, LogView, MachineView};
use crate::memory::RuntimeLog;
use crate::mode::ExecutorMode;
use crate::regalloc::NUM_REGISTERS;
use crate::state::{ExecutionState, MEMORY_PAGE_SIZE};
#[allow(unused_imports)]
use crate::state::StateView;
use crate::syscalls::{
    SyscallArguments, SyscallCache, SyscallContext, SyscallImpl, EXIT_UNCONSTRAINED, HALT, WRITE,
};
#[allow(unused_imports)]
use crate::syscalls::SyscallCacheView;
use crate::table::Table;

verus! {

/// Aligns an address to the nearest word below or equal to it.
#[must_use]
pub fn align(addr: u32) -> (aligned: u32)
    ensures
        aligned == word_address(addr),
        aligned % 4 == 0,
        aligned <= addr < aligned + 4,
{
    addr - addr % 4
}

/// An executor for RISC-V programs.
///
/// The executor is responsible for executing a user program and tracing important events which
/// occur during execution (i.e., memory reads, alu operations, etc).
pub struct Executor {
    /// The program.
    pub program: Arc<Program>,
    /// Whether we should write to the report.
    pub print_report: bool,
    /// The maximum number of cycles for a system call.
    pub max_syscall_cycles: u32,
    /// The mapping between system call codes and their implementations.
    pub syscall_map: Table<Arc<SyscallImpl>>,
    /// The code that a system call is counted under, where it is not its own.
    pub syscall_aliases: Table<u32>,
    /// The implementations of hot system calls.
    pub syscall_cache: SyscallCache,
    /// The maximum number of cpu cycles to use for execution.
    pub max_cycles: Option<u64>,
    /// The state of the execution.
    pub state: ExecutionState,
    /// The mode of execution and what memory accesses and output have left behind.
    pub log: RuntimeLog,
    /// Registry of hooks, to be invoked by writing to certain file descriptors.
    pub hook_registry: HookRegistry,
}

impl View for Executor {
    type V = ExecutorView;

    open spec fn view(&self) -> ExecutorView {
        ExecutorView { machine: machine(self.state, self.log), cache: self.syscall_cache@ }
    }
}

/// The implementations of system calls may report the given numbers of extra cycles.
pub open spec fn may_report(map: Map<u32, Arc<SyscallImpl>>, reported: Map<u32, u32>) -> bool {
    &&& reported.dom() == map.dom()
    &&& forall|code: u32| #[trigger]
        reported.contains_key(code) ==> map[code].implementation.takes(reported[code])
}

/// The largest of the reported numbers; zero where there is none.
pub open spec fn largest(reported: Map<u32, u32>, cycles: u32) -> bool {
    &&& forall|code: u32| #[trigger] reported.contains_key(code) ==> reported[code] <= cycles
    &&& cycles == 0 || exists|code: u32| #[trigger]
        reported.contains_key(code) && reported[code] == cycles
}

/// Asks the implementations of system calls for their numbers of extra cycles.
fn ask_cycles(map: &Table<Arc<SyscallImpl>>) -> (reported: Table<u32>)
    ensures
        may_report(map@, reported@),
{
    let mut reported: Table<u32> = Table::new();
    let count: usize = map.len();
    let mut i: usize = 0;
    while i < count
        invariant
            i <= count,
            count == map.keys().len(),
            map.keys_are_domain(),
            forall|j: int| 0 <= j < i ==> reported@.contains_key(#[trigger] map.keys()[j]),
            forall|code: u32| #[trigger]
                reported@.contains_key(code) ==> map@.contains_key(code)
                    && map@[code].implementation.takes(reported@[code]),
        decreases count - i,
    {
        let (code, syscall) = map.entry_at(i);
        reported.insert(code, syscall.implementation.num_extra_cycles());
        i = i + 1;
    }
    proof {
        assert forall|code: u32| map@.contains_key(code) implies reported@.contains_key(code) by {
            let j = choose|j: int| 0 <= j < map.keys().len() && map.keys()[j] == code;
            assert(reported@.contains_key(map.keys()[j]));
        }
        assert(reported@.dom() =~= map@.dom());
    }
    reported
}

/// Finds the largest of the reported numbers of extra cycles.
pub fn find_largest(reported: &Table<u32>) -> (cycles: u32)
    ensures
        largest(reported@, cycles),
{
    let mut cycles: u32 = 0;
    let count: usize = reported.len();
    let mut i: usize = 0;
    while i < count
        invariant
            i <= count,
            count == reported.keys().len(),
            reported.keys_are_domain(),
            forall|j: int| 0 <= j < i ==> reported@[#[trigger] reported.keys()[j]] <= cycles,
            cycles == 0 || exists|code: u32| #[trigger]
                reported@.contains_key(code) && reported@[code] == cycles,
        decreases count - i,
    {
        let (code, value) = reported.entry_at(i);
        if *value > cycles {
            cycles = *value;
            assert(reported@.contains_key(code));
        }
        i = i + 1;
    }
    assert forall|code: u32| #[trigger] reported@.contains_key(code) implies reported@[code]
        <= cycles by {
        let j = choose|j: int| 0 <= j < reported.keys().len() && reported.keys()[j] == code;
        assert(reported@[reported.keys()[j]] <= cycles);
    }
    cycles
}

impl StateView {
    /// The state after every register has been looked at.
    pub open spec fn all_counted(self) -> StateView {
        StateView {
            register_access_count: Seq::new(
                NUM_REGISTERS as nat,
                |i: int| self.register_access_count[i].wrapping_add(1),
            ),
            ..self
        }
    }
}

impl Executor {
    /// What the executor is set up with.
    pub open spec fn setup(&self) -> SetupView {
        SetupView {
            program: *self.program,
            print_report: self.print_report,
            max_syscall_cycles: self.max_syscall_cycles,
            syscall_map: self.syscall_map@,
            syscall_aliases: self.syscall_aliases@,
            max_cycles: self.max_cycles,
            hook_registry: self.hook_registry,
        }
    }

    /// The executor has changed to another one with the same set-up and the given machine, and
    /// with the same cache.
    pub open spec fn became(&self, other: Executor, after: MachineView) -> bool {
        &&& other.setup() == self.setup()
        &&& other@ == (ExecutorView { machine: after, ..self@ })
    }

    /// The executor has the system calls of an environment, and its largest number of extra cycles is
    /// the largest that they may report.
    pub open spec fn offers(&self, environment: Environment) -> bool {
        &&& self.setup().syscall_map == environment.syscall_map@
        &&& self.setup().syscall_aliases == environment.syscall_aliases@
        &&& exists|reported: Map<u32, u32>| #[trigger]
            may_report(environment.syscall_map@, reported) && largest(
                reported,
                self.setup().max_syscall_cycles,
            )
    }

    /// Create a new executor from a program and an environment, without a context.
    #[must_use]
    pub fn new(program: Program, environment: Environment) -> (executor: Executor)
        ensures
            executor@.machine.state == StateView::initial(program.pc_start),
            executor@.machine.log == LogView::initial(),
            executor@.cache == SyscallCacheView::initial(),
            executor.setup().program == program,
            !executor.setup().print_report,
            executor.offers(environment),
            executor.setup().max_cycles is None,
            executor.setup().hook_registry == environment.hook_registry,
    {
        Executor::with_context(program, environment, SP1Context::default())
    }

    /// Create a new executor from a program, an environment and a context.
    #[must_use]
    pub fn with_context(program: Program, environment: Environment, context: SP1Context) -> (executor:
        Executor)
        ensures
            executor@.machine.state == StateView::initial(program.pc_start),
            executor@.machine.log == LogView::initial(),
            executor@.cache == SyscallCacheView::initial(),
            executor.setup().program == program,
            !executor.setup().print_report,
            executor.offers(environment),
            executor.setup().max_cycles == context.max_cycles,
            executor.setup().hook_registry == match context.hook_registry {
                Some(registry) => registry,
                None => environment.hook_registry,
            },
    {
        let reported = ask_cycles(&environment.syscall_map);
        let max_syscall_cycles: u32 = find_largest(&reported);
        assert(may_report(environment.syscall_map@, reported@));
        let hook_registry = match context.hook_registry {
            Some(registry) => registry,
            None => environment.hook_registry,
        };
        Executor {
            state: ExecutionState::new(program.pc_start),
            program: Arc::new(program),
            print_report: false,
            max_syscall_cycles,
            syscall_map: environment.syscall_map,
            syscall_aliases: environment.syscall_aliases,
            syscall_cache: SyscallCache::default(),
            max_cycles: context.max_cycles,
            log: RuntimeLog::new(),
            hook_registry,
        }
    }

    /// Recover an executor from a program, an environment and an existing execution state.
    #[must_use]
    pub fn recover(program: Program, environment: Environment, state: ExecutionState) -> (executor:
        Executor)
        ensures
            executor.state == state,
            executor@.machine.log == LogView::initial(),
            executor@.cache == SyscallCacheView::initial(),
            executor.setup().program == program,
            !executor.setup().print_report,
            executor.offers(environment),
            executor.setup().max_cycles is None,
            executor.setup().hook_registry == environment.hook_registry,
    {
        let mut executor = Executor::new(program, environment);
        executor.state = state;
        executor
    }

    /// Invokes the hook of a file descriptor with some data.
    ///
    /// # Errors
    ///
    /// If the file descriptor is not found in the [`HookRegistry`], this function will return an
    /// error.
    pub fn hook(&self, fd: u32, buf: &[u8]) -> (reply: Result<Vec<Vec<u8>>, HookError>)
        ensures
            reply is Ok <==> self.hook_registry@.contains_key(fd),
            match reply {
                Ok(data) => self.hook_registry@[fd].implementation.replies(
                    self.state,
                    self.log,
                    buf@,
                    reply_contents(data@),
                ),
                Err(error) => error == HookError::NotFound(fd),
            },
    {
        match self.hook_registry.get(fd) {
            Some(hook) => Ok(hook.implementation.invoke_hook(self.hook_env(), buf)),
            None => Err(HookError::NotFound(fd)),
        }
    }

    /// Prepare an environment for use by hooks.
    #[must_use]
    pub fn hook_env(&self) -> (env: HookEnv<'_>)
        ensures
            *env.state == self.state,
            *env.log == self.log,
    {
        HookEnv { state: &self.state, log: &self.log }
    }

    /// Get the current values of the registers.
    #[must_use]
    pub fn registers(&mut self) -> (values: [u32; 32])
        ensures
            forall|i: int|
                0 <= i < NUM_REGISTERS ==> #[trigger] values@[i]
                    == old(self)@.machine.state.registers[i].value,
            old(self).became(
                *final(self),
                old(self)@.machine.with(old(self)@.machine.state.all_counted()),
            ),
    {
        let mut values: [u32; 32] = [0u32; 32];
        let mut i: usize = 0;
        while i < 32
            invariant
                i <= 32,
                forall|j: int|
                    0 <= j < i ==> #[trigger] values@[j]
                        == old(self)@.machine.state.registers[j].value,
                self@.machine.state.register_access_count.len() == NUM_REGISTERS,
                old(self)@.machine.state.register_access_count.len() == NUM_REGISTERS,
                old(self).became(
                    *self,
                    old(self)@.machine.with(
                        StateView {
                            register_access_count: self@.machine.state.register_access_count,
                            ..old(self)@.machine.state
                        },
                    ),
                ),
                forall|j: int|
                    0 <= j < 32 ==> #[trigger] self@.machine.state.register_access_count[j]
                        == if j < i {
                        old(self)@.machine.state.register_access_count[j].wrapping_add(1)
                    } else {
                        old(self)@.machine.state.register_access_count[j]
                    },
            decreases 32 - i,
        {
            let value: u32 = self.state.get_register(i).value;
            values[i] = value;
            i = i + 1;
        }
        assert(self@.machine.state =~= old(self)@.machine.state.all_counted());
        values
    }

    /// Get the current value of a register.
    #[must_use]
    pub fn register(&mut self, register: Register) -> (value: u32)
        ensures
            value == old(self)@.machine.state.registers[register as int].value,
            old(self).became(
                *final(self),
                old(self)@.machine.with(
                    old(self)@.machine.state.register_counted(register as int),
                ),
            ),
    {
        self.state.get_register(register as usize).value
    }

    /// Get the current value of a word.
    #[must_use]
    pub fn word(&mut self, addr: u32) -> (value: u32)
        ensures
            value == old(self)@.machine.word(addr),
            old(self).became(*final(self), old(self)@.machine.looked_at(addr)),
    {
        self.log.word(&mut self.state, addr)
    }

    /// Get the current value of a byte.
    #[must_use]
    pub fn byte(&mut self, addr: u32) -> (value: u8)
        ensures
            value == byte_of(old(self)@.machine.word(word_address(addr)), byte_lane(addr)),
            old(self).became(*final(self), old(self)@.machine.looked_at(word_address(addr))),
    {
        let word: u32 = self.word(align(addr));
        select_byte(word, addr) as u8
    }

    /// Get the current timestamp for a given memory access position.
    #[must_use]
    pub fn timestamp(&self, position: &MemoryAccessPosition) -> (timestamp: u32)
        ensures
            timestamp == self@.machine.state.time(*position),
    {
        self.state.clk.wrapping_add(*position as u32)
    }

    /// Get the current shard.
    #[must_use]
    pub fn shard(&self) -> (shard: u32)
        ensures
            shard == self@.machine.state.current_shard,
    {
        self.state.current_shard
    }

    /// Read a word from memory and create an access record.
    pub fn mr(
        &mut self,
        addr: u32,
        shard: u32,
        timestamp: u32,
        local_memory_access: Option<&mut Table<MemoryLocalEvent>>,
    ) -> (record: MemoryReadRecord)
        ensures
            record == old(self)@.machine.read_record(addr, shard, timestamp),
            old(self).became(
                *final(self),
                old(self)@.machine.read(addr, shard, timestamp, local_memory_access is None),
            ),
            match local_memory_access {
                Some(events) => final(events)@ == if old(self)@.machine.log.unconstrained {
                    events@
                } else {
                    events_after(
                        events@,
                        addr,
                        old(self)@.machine.found(addr),
                        MemoryRecord { value: record.value, shard, timestamp },
                    )
                },
                None => true,
            },
    {
        self.log.mr(&mut self.state, addr, shard, timestamp, local_memory_access)
    }

    /// Write a word to memory and create an access record.
    pub fn mw(
        &mut self,
        addr: u32,
        value: u32,
        shard: u32,
        timestamp: u32,
        local_memory_access: Option<&mut Table<MemoryLocalEvent>>,
    ) -> (record: MemoryWriteRecord)
        ensures
            record == old(self)@.machine.write_record(addr, value, shard, timestamp),
            old(self).became(
                *final(self),
                old(self)@.machine.wrote(
                    addr,
                    value,
                    shard,
                    timestamp,
                    local_memory_access is None,
                ),
            ),
            match local_memory_access {
                Some(events) => final(events)@ == if old(self)@.machine.log.unconstrained {
                    events@
                } else {
                    events_after(
                        events@,
                        addr,
                        old(self)@.machine.state.effective_record(addr),
                        MemoryRecord { value, shard, timestamp },
                    )
                },
                None => true,
            },
    {
        self.log.mw(&mut self.state, addr, value, shard, timestamp, local_memory_access)
    }

    /// Read from memory at the current time, assuming that all addresses are aligned.
    pub fn mr_cpu(&mut self, addr: u32, position: MemoryAccessPosition) -> (value: u32)
        ensures
            value == old(self)@.machine.found(addr).value,
            old(self).became(
                *final(self),
                old(self)@.machine.read(
                    addr,
                    old(self)@.machine.state.current_shard,
                    old(self)@.machine.state.time(position),
                    true,
                ),
            ),
    {
        let shard: u32 = self.shard();
        let timestamp: u32 = self.timestamp(&position);
        let record = self.mr(addr, shard, timestamp, None);
        record.value
    }

    /// Write to memory at the current time. The address must be aligned.
    pub fn mw_cpu(&mut self, addr: u32, value: u32, position: MemoryAccessPosition)
        requires
            addr % 4 == 0,
        ensures
            old(self).became(
                *final(self),
                old(self)@.machine.wrote(
                    addr,
                    value,
                    old(self)@.machine.state.current_shard,
                    old(self)@.machine.state.time(position),
                    true,
                ),
            ),
    {
        let shard: u32 = self.shard();
        let timestamp: u32 = self.timestamp(&position);
        self.mw(addr, value, shard, timestamp, None);
    }

    /// Read from a register.
    pub fn rr(&mut self, register: Register, _position: MemoryAccessPosition) -> (value: u32)
        ensures
            value == old(self)@.machine.state.register_value(register),
            old(self).became(
                *final(self),
                old(self)@.machine.with(old(self)@.machine.state.register_used(register)),
            ),
    {
        let pc: u32 = self.state.pc;
        self.state.register_allocator.record_access(register, pc, false);
        let reg_idx: usize = register as usize;
        if self.state.register_allocator.should_spill(register) {
            let spill_addr: u32 = self.get_spill_address(register);
            match self.state.get_memory(spill_addr) {
                Some(record) => record.value,
                None => 0,
            }
        } else if reg_idx < 8 {
            self.state.hot_registers[reg_idx].value
        } else {
            self.state.cold_registers[reg_idx - 8].value
        }
    }

    /// Write to a register. Register `x0` stays zero.
    pub fn rw(&mut self, register: Register, value: u32)
        ensures
            old(self).became(
                *final(self),
                old(self)@.machine.with(
                    old(self)@.machine.state.register_written(register, value),
                ),
            ),
    {
        let pc: u32 = self.state.pc;
        self.state.register_allocator.record_access(register, pc, true);
        let value: u32 = if register == Register::X0 {
            0
        } else {
            value
        };
        let record = MemoryRecord {
            value,
            shard: self.shard(),
            timestamp: self.timestamp(&MemoryAccessPosition::A),
        };
        if self.state.register_allocator.should_spill(register) {
            let spill_addr: u32 = self.get_spill_address(register);
            self.state.set_memory(spill_addr, record);
        } else {
            self.state.set_register(register as usize, record);
        }
    }

    /// The memory address of a spilled register.
    fn get_spill_address(&self, register: Register) -> (addr: u32)
        ensures
            addr == spill_address(register),
    {
        0xFFFF_0000 + (register as u32) * 4
    }
}

impl Executor {
    /// Fetch the destination register and input operand values for an ALU instruction.
    fn alu_rr(&mut self, instruction: &Instruction) -> (operands: (Register, u32, u32))
        requires
            instruction@.opcode.is_alu(),
        ensures
            operands.0 == Register::from_u32(instruction@.op_a),
            operands.1 == old(self)@.machine.state.alu_operands(instruction@).1,
            operands.2 == old(self)@.machine.state.alu_operands(instruction@).2,
            old(self).became(
                *final(self),
                old(self)@.machine.with(old(self)@.machine.state.alu_operands(instruction@).0),
            ),
    {
        proof {
            use_type_invariant(instruction);
        }
        if !instruction.imm_c() {
            let (rd, rs1, rs2) = instruction.r_type();
            let c: u32 = self.rr(rs2, MemoryAccessPosition::C);
            let b: u32 = self.rr(rs1, MemoryAccessPosition::B);
            (rd, b, c)
        } else if !instruction.imm_b() {
            let (rd, rs1, imm) = instruction.i_type();
            let b: u32 = self.rr(rs1, MemoryAccessPosition::B);
            (rd, b, imm)
        } else {
            (Register::from_u32(instruction.op_a()), instruction.op_b(), instruction.op_c())
        }
    }

    /// Set the destination register with the result of an ALU instruction.
    fn alu_rw(&mut self, rd: Register, a: u32)
        ensures
            old(self).became(
                *final(self),
                old(self)@.machine.with(old(self)@.machine.state.register_written(rd, a)),
            ),
    {
        self.rw(rd, a);
    }

    /// Fetch the destination register, the address and the word for a load instruction.
    fn load_rr(&mut self, instruction: &Instruction) -> (operands: (Register, u32, u32))
        requires
            instruction@.opcode.is_load(),
        ensures
            operands.0 == Register::from_u32(instruction@.op_a),
            operands.1 == old(self)@.machine.load_operands(instruction@).1,
            operands.2 == old(self)@.machine.load_operands(instruction@).2,
            old(self).became(*final(self), old(self)@.machine.load_operands(instruction@).0),
    {
        reveal(MachineView::load_operands);
        proof {
            use_type_invariant(instruction);
        }
        let (rd, rs1, imm) = instruction.i_type();
        let b: u32 = self.rr(rs1, MemoryAccessPosition::B);
        let addr: u32 = b.wrapping_add(imm);
        let memory_value: u32 = self.mr_cpu(align(addr), MemoryAccessPosition::Memory);
        (rd, addr, memory_value)
    }

    /// Fetch the value to store, the address and the word there for a store instruction.
    fn store_rr(&mut self, instruction: &Instruction) -> (operands: (u32, u32, u32))
        requires
            instruction@.opcode.is_store(),
        ensures
            operands.0 == old(self)@.machine.store_operands(instruction@).1,
            operands.1 == old(self)@.machine.store_operands(instruction@).2,
            operands.2 == old(self)@.machine.store_operands(instruction@).3,
            old(self).became(*final(self), old(self)@.machine.store_operands(instruction@).0),
    {
        reveal(MachineView::store_operands);
        proof {
            use_type_invariant(instruction);
        }
        let (rs1, rs2, imm) = instruction.s_type();
        let b: u32 = self.rr(rs2, MemoryAccessPosition::B);
        let a: u32 = self.rr(rs1, MemoryAccessPosition::A);
        let addr: u32 = b.wrapping_add(imm);
        let memory_value: u32 = self.word(align(addr));
        (a, addr, memory_value)
    }

    /// Fetch the values to compare and the distance to the target for a branch instruction.
    fn branch_rr(&mut self, instruction: &Instruction) -> (operands: (u32, u32, u32))
        requires
            instruction@.opcode.is_branch(),
        ensures
            operands.0 == old(self)@.machine.state.source_values(instruction@).1,
            operands.1 == old(self)@.machine.state.source_values(instruction@).2,
            operands.2 == instruction@.op_c,
            old(self).became(
                *final(self),
                old(self)@.machine.with(old(self)@.machine.state.source_values(instruction@).0),
            ),
    {
        proof {
            use_type_invariant(instruction);
        }
        let (rs1, rs2, imm) = instruction.b_type();
        let b: u32 = self.rr(rs2, MemoryAccessPosition::B);
        let a: u32 = self.rr(rs1, MemoryAccessPosition::A);
        (a, b, imm)
    }

    /// Whether there is an instruction at the current program counter.
    pub fn can_fetch(&self) -> (fetchable: bool)
        ensures
            fetchable == self@.fetchable(self.setup()),
    {
        let pc: u32 = self.state.pc;
        let idx: usize = (pc.wrapping_sub(self.program.pc_base) / 4) as usize;
        self.state.icache.lookup(pc).is_some() || idx < self.program.instructions.len()
    }

    /// Fetch the instruction at the current program counter.
    pub fn fetch(&mut self) -> (instruction: Instruction)
        requires
            old(self)@.fetchable(old(self).setup()),
        ensures
            instruction == old(self)@.fetched(old(self).setup()),
            final(self)@ == old(self)@.after_fetch(old(self).setup()),
            final(self).setup() == old(self).setup(),
    {
        let pc: u32 = self.state.pc;
        if let Some(instruction) = self.state.icache.lookup(pc) {
            return instruction;
        }
        let idx: usize = (pc.wrapping_sub(self.program.pc_base) / 4) as usize;
        let instruction = self.program.instructions[idx];
        self.state.icache.insert(pc, instruction);
        instruction
    }

    /// Execute a register operation.
    fn execute_alu(&mut self, instruction: &Instruction)
        requires
            instruction@.opcode.is_alu(),
        ensures
            old(self).became(*final(self), old(self)@.machine.after_alu(instruction@)),
    {
        let (rd, b, c) = self.alu_rr(instruction);
        let a: u32 = alu(instruction.opcode(), b, c);
        self.alu_rw(rd, a);
    }

    /// Execute a load.
    fn execute_load(&mut self, instruction: &Instruction) -> (outcome: Result<(), ExecutionError>)
        requires
            instruction@.opcode.is_load(),
        ensures
            outcome == old(self)@.machine.after_load(instruction@).1,
            old(self).became(*final(self), old(self)@.machine.after_load(instruction@).0),
    {
        let opcode = instruction.opcode();
        let (rd, addr, memory_read_value) = self.load_rr(instruction);
        match load(opcode, memory_read_value, addr) {
            Some(a) => {
                self.rw(rd, a);
                Ok(())
            },
            None => Err(ExecutionError::InvalidMemoryAccess(opcode, addr)),
        }
    }

    /// Execute a store.
    fn execute_store(&mut self, instruction: &Instruction) -> (outcome: Result<(), ExecutionError>)
        requires
            instruction@.opcode.is_store(),
        ensures
            outcome == old(self)@.machine.after_store(instruction@).1,
            old(self).became(*final(self), old(self)@.machine.after_store(instruction@).0),
    {
        let opcode = instruction.opcode();
        let (a, addr, memory_read_value) = self.store_rr(instruction);
        match store(opcode, memory_read_value, a, addr) {
            Some(value) => {
                self.mw_cpu(align(addr), value, MemoryAccessPosition::Memory);
                Ok(())
            },
            None => Err(ExecutionError::InvalidMemoryAccess(opcode, addr)),
        }
    }

    /// Execute a conditional branch: the address of the next instruction.
    fn execute_branch(&mut self, instruction: &Instruction) -> (next_pc: u32)
        requires
            instruction@.opcode.is_branch(),
        ensures
            next_pc == old(self)@.machine.after_branch(instruction@).1,
            old(self).became(
                *final(self),
                old(self)@.machine.after_branch(instruction@).0,
            ),
    {
        let current_pc: u32 = self.state.pc;
        let opcode = instruction.opcode();
        let (a, b, c) = self.branch_rr(instruction);
        let taken = compare(opcode, a, b);
        let target_pc: u32 = if taken {
            current_pc.wrapping_add(c)
        } else {
            current_pc.wrapping_add(4)
        };
        self.state.branch_predictor.update(current_pc, opcode, taken, target_pc);
        target_pc
    }

    /// Execute a jump to a distance: the address of the next instruction.
    fn execute_jal(&mut self, instruction: &Instruction) -> (next_pc: u32)
        requires
            instruction@.opcode == Opcode::JAL,
        ensures
            next_pc == old(self)@.machine.after_jal(instruction@).1,
            old(self).became(*final(self), old(self)@.machine.after_jal(instruction@).0),
    {
        proof {
            use_type_invariant(instruction);
        }
        let current_pc: u32 = self.state.pc;
        let (rd, imm) = instruction.j_type();
        self.rw(rd, current_pc.wrapping_add(4));
        let target_pc: u32 = current_pc.wrapping_add(imm);
        self.state.branch_predictor.update(current_pc, Opcode::JAL, true, target_pc);
        target_pc
    }

    /// Execute a jump to a register: the address of the next instruction.
    fn execute_jalr(&mut self, instruction: &Instruction) -> (next_pc: u32)
        requires
            instruction@.opcode == Opcode::JALR,
        ensures
            next_pc == old(self)@.machine.after_jalr(instruction@).1,
            old(self).became(*final(self), old(self)@.machine.after_jalr(instruction@).0),
    {
        proof {
            use_type_invariant(instruction);
        }
        let current_pc: u32 = self.state.pc;
        let (rd, rs1, imm) = instruction.i_type();
        let b: u32 = self.rr(rs1, MemoryAccessPosition::B);
        self.rw(rd, current_pc.wrapping_add(4));
        let target_pc: u32 = b.wrapping_add(imm);
        self.state.branch_predictor.update(current_pc, Opcode::JALR, true, target_pc);
        target_pc
    }

    /// Build an address relative to the program counter.
    fn execute_auipc(&mut self, instruction: &Instruction)
        requires
            instruction@.opcode == Opcode::AUIPC,
        ensures
            old(self).became(*final(self), old(self)@.machine.after_auipc(instruction@)),
    {
        proof {
            use_type_invariant(instruction);
        }
        let (rd, imm) = instruction.u_type();
        let a: u32 = self.state.pc.wrapping_add(imm);
        self.rw(rd, a);
    }
}

/// Whether a conditional branch is taken.
fn compare(opcode: Opcode, a: u32, b: u32) -> (taken: bool)
    requires
        opcode.is_branch(),
    ensures
        taken == branch_taken(opcode, a, b),
{
    match opcode {
        Opcode::BEQ => a == b,
        Opcode::BNE => a != b,
        Opcode::BLT => less_signed(a, b),
        Opcode::BGE => !less_signed(a, b),
        Opcode::BLTU => a < b,
        _ => a >= b,
    }
}

/// Whether one word is less than another, both taken as signed.
fn less_signed(a: u32, b: u32) -> (less: bool)
    ensures
        less == (signed(a) < signed(b)),
{
    if (a < 0x8000_0000) == (b < 0x8000_0000) {
        a < b
    } else {
        b < 0x8000_0000
    }
}

impl Executor {
    /// The implementation of a system call.
    fn get_syscall(&self, code: u32) -> (syscall: Option<&Arc<SyscallImpl>>)
        ensures
            match syscall {
                Some(found) => self.syscall_map@.contains_key(code) && *found
                    == self.syscall_map@[code],
                None => !self.syscall_map@.contains_key(code),
            },
    {
        self.syscall_map.get(code)
    }

    /// Count a call of a system call.
    fn count_call(&mut self, code: u32)
        ensures
            final(self)@ == old(self)@.call_counted(old(self).setup(), code),
            final(self).setup() == old(self).setup(),
    {
        let counted_as: u32 = match self.syscall_aliases.get(code) {
            Some(alias) => *alias,
            None => code,
        };
        let count: u64 = match self.state.syscall_counts.get(counted_as) {
            Some(count) => *count,
            None => 0,
        };
        self.state.syscall_counts.insert(counted_as, count.wrapping_add(1));
        self.state.syscall_stats.record_syscall(code);
    }

    /// The implementation that a call of a system call runs. That of a hot system call comes from
    /// the cache; a cold one bypasses it to avoid cache pollution.
    fn find_implementation(&mut self, code: u32) -> (syscall: Option<Arc<SyscallImpl>>)
        ensures
            syscall == old(self)@.implementation(old(self).setup(), code),
            final(self)@ == old(self)@.implementation_cached(old(self).setup(), code),
            final(self).setup() == old(self).setup(),
    {
        let hot = self.state.syscall_stats.is_hot_syscall(code);
        if hot {
            if let Some(syscall) = self.syscall_cache.lookup(code) {
                return Some(syscall);
            }
        }
        let found = match self.get_syscall(code) {
            Some(syscall) => Some(syscall.clone()),
            None => None,
        };
        if let Some(syscall) = &found {
            if hot {
                self.syscall_cache.insert(code, syscall.clone());
            }
        }
        found
    }

    /// Fetch the arguments of a system call and find its implementation.
    pub fn prepare_call(&mut self) -> (prepared: (
        SyscallArguments,
        Result<Arc<SyscallImpl>, ExecutionError>,
    ))
        ensures
            (final(self)@, prepared.0, prepared.1) == old(self)@.call_prepared(old(self).setup()),
            final(self).setup() == old(self).setup(),
    {
        // The register of the code is looked at, not read, since it is written to later.
        let code: u32 = self.register(Register::X5);
        let c: u32 = self.rr(Register::X11, MemoryAccessPosition::C);
        let b: u32 = self.rr(Register::X10, MemoryAccessPosition::B);
        let arguments = SyscallArguments { code, arg1: b, arg2: c };
        if self.log.unconstrained && code != EXIT_UNCONSTRAINED && code != WRITE {
            return (arguments, Err(ExecutionError::InvalidSyscallUsage(code as u64)));
        }
        self.count_call(code);
        match self.find_implementation(code) {
            Some(syscall) => (arguments, Ok(syscall)),
            None => (arguments, Err(ExecutionError::UnsupportedSyscall(code))),
        }
    }

    /// Go on after a system call has come back with `result` and has left `context` behind.
    pub fn finish_call(
        &mut self,
        code: u32,
        context: SyscallContext,
        result: Option<u32>,
        cycles: u32,
    ) -> (outcome: Result<(), ExecutionError>)
        ensures
            outcome == old(self)@.machine.call_finished(code, context, result, cycles).1,
            old(self).became(
                *final(self),
                old(self)@.machine.call_finished(code, context, result, cycles).0,
            ),
    {
        if code == HALT && context.exit_code != 0 {
            return Err(ExecutionError::HaltWithNonZeroExitCode(context.exit_code));
        }
        let a: u32 = match result {
            Some(value) => value,
            None => code,
        };
        self.rw(Register::X5, a);
        self.state.clk = self.state.clk.wrapping_add(cycles);
        self.advance(context.next_pc);
        Ok(())
    }

    /// Run the implementation of a system call.
    fn run_call(&mut self, syscall: &Arc<SyscallImpl>, arguments: SyscallArguments) -> (outcome:
        Result<(), ExecutionError>)
        ensures
            old(self).setup().ran(*syscall, arguments, old(self)@, final(self)@, outcome),
            final(self).setup() == old(self).setup(),
    {
        let mut context = SyscallContext {
            current_shard: self.state.current_shard,
            clk: self.state.clk,
            next_pc: self.state.pc.wrapping_add(4),
            exit_code: 0,
        };
        let ghost start = (context, self.state, self.log);
        let result = syscall.implementation.execute(
            &mut context,
            &mut self.state,
            &mut self.log,
            &self.hook_registry,
            arguments,
        );
        let ghost end = (context, self.state, self.log);
        let cycles: u32 = syscall.implementation.num_extra_cycles();
        let outcome = self.finish_call(arguments.code, context, result, cycles);
        assert(syscall.implementation.takes(cycles));
        assert(syscall.implementation.effect(
            old(self).setup().hook_registry,
            arguments,
            start,
            end,
            result,
        ));
        outcome
    }

    /// Execute a system call.
    fn execute_call(&mut self) -> (outcome: Result<(), ExecutionError>)
        ensures
            old(self).setup().called(old(self)@, final(self)@, outcome),
            final(self).setup() == old(self).setup(),
    {
        let (arguments, found) = self.prepare_call();
        match found {
            Err(error) => Err(error),
            Ok(syscall) => self.run_call(&syscall, arguments),
        }
    }

    /// Go on to the next instruction.
    fn advance(&mut self, next_pc: u32)
        ensures
            old(self).became(
                *final(self),
                old(self)@.machine.with(old(self)@.machine.state.advanced(next_pc)),
            ),
    {
        self.state.pc = next_pc;
        self.state.clk = self.state.clk.wrapping_add(4);
    }

    /// Ask the branch predictor about the current instruction. What it says is a guess: where
    /// execution goes on is settled by the instruction.
    fn predict(&mut self, opcode: Opcode)
        ensures
            old(self).became(
                *final(self),
                old(self)@.machine.with(old(self)@.machine.state.predicted()),
            ),
    {
        let current_pc: u32 = self.state.pc;
        let _prediction = self.state.branch_predictor.predict(current_pc, opcode);
    }

    /// Execute a single instruction without scheduling.
    #[verifier::spinoff_prover]
    pub fn execute_single_instruction(&mut self, instruction: &Instruction) -> (outcome: Result<
        (),
        ExecutionError,
    >)
        ensures
            old(self).setup().stepped(old(self)@, instruction@, final(self)@, outcome),
            final(self).setup() == old(self).setup(),
    {
        reveal(SetupView::stepped);
        let opcode = instruction.opcode();
        self.predict(opcode);
        let mut next_pc: u32 = self.state.pc.wrapping_add(4);
        if opcode == Opcode::ECALL {
            return self.execute_call();
        }
        if opcode.is_alu() {
            self.execute_alu(instruction);
        } else if opcode.is_load() {
            if let Err(error) = self.execute_load(instruction) {
                return Err(error);
            }
        } else if opcode.is_store() {
            if let Err(error) = self.execute_store(instruction) {
                return Err(error);
            }
        } else if opcode.is_branch() {
            next_pc = self.execute_branch(instruction);
        } else if opcode == Opcode::JAL {
            next_pc = self.execute_jal(instruction);
        } else if opcode == Opcode::JALR {
            next_pc = self.execute_jalr(instruction);
        } else if opcode == Opcode::AUIPC {
            self.execute_auipc(instruction);
        } else if opcode == Opcode::EBREAK {
            return Err(ExecutionError::Breakpoint());
        } else {
            return Err(ExecutionError::Unimplemented());
        }
        self.advance(next_pc);
        Ok(())
    }
}

impl Executor {
    /// Execute the given instruction over the current state of the runtime.
    pub fn execute_instruction(&mut self, instruction: &Instruction) -> (outcome: Result<
        (),
        ExecutionError,
    >)
        ensures
            old(self).setup().issued(old(self)@, *instruction, final(self)@, outcome),
            final(self).setup() == old(self).setup(),
    {
        reveal(SetupView::issued);
        let ghost setup = self.setup();
        let ready = self.state.scheduler.add_instruction(*instruction);
        let ghost scheduled = self@;
        let mut i: usize = 0;
        while i < ready.len()
            invariant
                i <= ready@.len(),
                setup == old(self).setup(),
                self.setup() == setup,
                ready@ == old(self)@.machine.state.scheduler.scheduled(*instruction).1,
                scheduled == old(self)@.with(
                    StateView {
                        scheduler: old(self)@.machine.state.scheduler.scheduled(*instruction).0,
                        ..old(self)@.machine.state
                    },
                ),
                setup.steps(scheduled, ready@, i as nat, self@),
            decreases ready@.len() - i,
        {
            let issued = ready[i];
            let ghost start = self@;
            let outcome = self.execute_single_instruction(&issued);
            if outcome.is_err() {
                proof {
                    assert(setup.all_stepped(scheduled, ready@, self@, outcome));
                    reveal(SetupView::issued);
                }
                return outcome;
            }
            let ghost end = self@;
            self.state.scheduler.complete_instruction(&issued);
            proof {
                assert(setup.stepped(start, ready@[i as int]@, end, outcome));
                assert(self@ == end.completed(issued));
            }
            i = i + 1;
        }
        assert(setup.all_stepped(scheduled, ready@, self@, Ok(())));
        Ok(())
    }

    /// Begin a cycle: fetch the instruction at the current program counter and settle how it is to
    /// be executed.
    pub fn begin_cycle(&mut self) -> (begun: (Instruction, LoopPlan))
        requires
            old(self)@.fetchable(old(self).setup()),
        ensures
            begun.0 == old(self)@.noted().fetched(old(self).setup()),
            begun.1 == old(self)@.noted().machine.state.loops.plan(old(self)@.machine.state.pc),
            final(self)@ == old(self)@.cycle_begun(old(self).setup()),
            final(self).setup() == old(self).setup(),
    {
        let current_pc: u32 = self.state.pc;
        self.state.loop_tracker.record_pc(current_pc);
        let instruction = self.fetch();
        let plan = self.state.loop_tracker.plan(current_pc);
        (instruction, plan)
    }

    /// Finish a cycle in which `instruction` has been fetched, returning whether the program has
    /// finished.
    pub fn finish_cycle(&mut self, instruction: &Instruction) -> (outcome: Result<
        bool,
        ExecutionError,
    >)
        ensures
            old(self).setup().cycle_finished(old(self)@, *instruction, final(self)@, outcome),
            outcome == Ok::<bool, ExecutionError>(false) ==> final(self)@.fetchable(
                old(self).setup(),
            ),
            final(self).setup() == old(self).setup(),
    {
        reveal(SetupView::cycle_finished);
        let executed = self.execute_instruction(instruction);
        if let Err(error) = executed {
            return Err(error);
        }
        let ghost last = self@;
        self.state.global_clk = self.state.global_clk.wrapping_add(1);
        let next_pc: u32 = self.state.pc;
        self.state.loop_tracker.record_pc(next_pc);
        assert(self@ == last.cycle_ended(self.setup()).0);
        if let Some(max_cycles) = self.max_cycles {
            if self.state.global_clk >= max_cycles {
                return Err(ExecutionError::ExceededCycleLimit(max_cycles));
            }
        }
        let done = self.program.is_end(next_pc);
        if done && self.log.unconstrained {
            return Err(ExecutionError::EndInUnconstrained());
        }
        Ok(done)
    }

    /// Executes one cycle of the program, returning whether the program has finished. Whatever the
    /// plan for the loop at the program counter is, one instruction is executed.
    pub fn execute_cycle(&mut self) -> (outcome: Result<bool, ExecutionError>)
        requires
            old(self)@.fetchable(old(self).setup()),
        ensures
            old(self).setup().cycled(old(self)@, final(self)@, outcome),
            outcome == Ok::<bool, ExecutionError>(false) ==> final(self)@.fetchable(
                old(self).setup(),
            ),
            final(self).setup() == old(self).setup(),
    {
        let (instruction, _plan) = self.begin_cycle();
        self.finish_cycle(&instruction)
    }
}

/// What is left to say when a program has ended.
pub struct Report<'b> {
    /// What the program has written to the standard error stream, where it has written anything.
    pub stderr: Option<&'b String>,
    /// Whether all input has been read.
    pub input_read: bool,
}

/// What the cycle tracer is told of a cycle.
#[derive(Clone, Copy, PartialEq, Eq, Debug)]
pub struct TraceEntry {
    /// The program counter, the most significant byte first.
    pub pc_bytes: [u8; 4],
    /// Whether the progress of execution is worth a message.
    pub progress: bool,
}

impl Executor {
    /// Load the memory image of the program.
    fn initialize(&mut self)
        ensures
            old(self).became(
                *final(self),
                old(self)@.machine.with(
                    old(self)@.machine.state.started(old(self).setup().program.memory_image@),
                ),
            ),
    {
        self.state.clk = 0;
        load_image(&mut self.state, &self.program.memory_image);
        assert(self.state@ =~= old(self).state@.started(old(self).program.memory_image@));
    }

    /// Prepare a run: before the first cycle, the program is loaded.
    pub fn start(&mut self)
        ensures
            final(self)@ == old(self)@.ready_to_run(old(self).setup()),
            final(self).setup() == old(self).setup(),
    {
        if self.state.global_clk == 0 {
            self.initialize();
        }
    }

    /// Executes the program without tracing and without emitting events: the list of events stays as
    /// it was.
    ///
    /// # Errors
    ///
    /// This function will return an error if the program execution fails.
    pub fn run_fast(&mut self) -> (outcome: Result<(), ExecutionError>)
        requires
            old(self)@.fetchable(old(self).setup()),
        ensures
            old(self).ran_fast(*final(self), outcome),
            final(self)@.machine.log.local_memory_access
                == old(self)@.machine.log.local_memory_access,
    {
        let mut events: Table<MemoryLocalEvent> = Table::new();
        std::mem::swap(&mut self.log.local_memory_access, &mut events);
        assert(self.in_mode(ExecutorMode::Simple) == old(self).in_mode(
            ExecutorMode::Simple,
        ).with_events(Map::empty()));
        let outcome = self.run_in(ExecutorMode::Simple);
        let ghost last = self@;
        self.log.local_memory_access = events;
        assert(self@ == last.with_events(old(self)@.machine.log.local_memory_access));
        outcome
    }

    /// Executes the program and traces events.
    ///
    /// # Errors
    ///
    /// This function will return an error if the program execution fails.
    pub fn run(&mut self) -> (outcome: Result<(), ExecutionError>)
        requires
            old(self)@.fetchable(old(self).setup()),
        ensures
            old(self).ran_as(ExecutorMode::Trace, *final(self), outcome),
    {
        self.run_in(ExecutorMode::Trace)
    }

    /// Executes the program in the given mode.
    fn run_in(&mut self, mode: ExecutorMode) -> (outcome: Result<(), ExecutionError>)
        requires
            old(self)@.fetchable(old(self).setup()),
        ensures
            old(self).ran_as(mode, *final(self), outcome),
    {
        self.log.executor_mode = mode;
        self.print_report = true;
        proof {
            assert(self@ == old(self).in_mode(mode));
            assert(self.setup() == (SetupView { print_report: true, ..old(self).setup() }));
        }
        let executed = self.execute();
        let outcome = match executed {
            Ok(_done) => Ok(()),
            Err(error) => Err(error),
        };
        assert(executed == Executor::executed_to(outcome));
        outcome
    }

    /// The executor with another mode.
    pub open spec fn in_mode(&self, mode: ExecutorMode) -> ExecutorView {
        ExecutorView {
            machine: MachineView {
                log: LogView { executor_mode: mode, ..self@.machine.log },
                ..self@.machine
            },
            ..self@
        }
    }

    /// What execution comes to where a run comes to the given outcome: a run that does not fail has
    /// finished the program.
    pub open spec fn executed_to(outcome: Result<(), ExecutionError>) -> Result<
        bool,
        ExecutionError,
    > {
        match outcome {
            Ok(_) => Ok(true),
            Err(error) => Err(error),
        }
    }

    /// A run in the given mode may lead to another executor with the given outcome.
    pub open spec fn ran_as(
        &self,
        mode: ExecutorMode,
        after: Executor,
        outcome: Result<(), ExecutionError>,
    ) -> bool {
        let setup = SetupView { print_report: true, ..self.setup() };
        &&& after.setup() == setup
        &&& setup.executed(self.in_mode(mode), after@, Executor::executed_to(outcome))
    }

    /// A run without events may lead to another executor with the given outcome: it is a run whose
    /// events are not kept.
    pub open spec fn ran_fast(&self, after: Executor, outcome: Result<(), ExecutionError>) -> bool {
        let setup = SetupView { print_report: true, ..self.setup() };
        let start = self.in_mode(ExecutorMode::Simple).with_events(Map::empty());
        &&& after.setup() == setup
        &&& exists|last: ExecutorView| #[trigger]
            setup.executed(start, last, Executor::executed_to(outcome)) && after@
                == last.with_events(self@.machine.log.local_memory_access)
    }

    /// Executes the program to its end, returning whether the program has finished.
    ///
    /// # Errors
    ///
    /// This function will return an error if the program execution fails.
    pub fn execute(&mut self) -> (outcome: Result<bool, ExecutionError>)
        requires
            old(self)@.fetchable(old(self).setup()),
        ensures
            old(self).setup().executed(old(self)@, final(self)@, outcome),
            outcome matches Ok(done) ==> done,
            final(self).setup() == old(self).setup(),
    {
        self.start();
        let ghost setup = self.setup();
        let ghost start = self@;
        let mut left: u64 = u64::MAX;
        while left > 0
            invariant
                setup == old(self).setup(),
                self.setup() == setup,
                start == old(self)@.ready_to_run(setup),
                self@.fetchable(setup),
                setup.cycles(start, (u64::MAX - left) as nat, self@),
            decreases left,
        {
            let ghost before = self@;
            let ghost count = (u64::MAX - left) as nat;
            let outcome = self.execute_cycle();
            match outcome {
                Ok(false) => {},
                _ => {
                    assert(setup.cycles(start, count, before));
                    return outcome;
                },
            }
            assert(setup.cycled(before, self@, Ok(false)));
            left = left - 1;
        }
        Err(ExecutionError::ExceededCycleLimit(u64::MAX))
    }

    /// Executes the program to its end, returning the checkpoint from before execution and whether
    /// the program ended.
    ///
    /// # Errors
    ///
    /// This function will return an error if the program execution fails.
    pub fn execute_state(&mut self) -> (outcome: Result<(ExecutionState, bool), ExecutionError>)
        requires
            old(self)@.fetchable(old(self).setup()),
        ensures
            old(self).setup().checkpointed(
                old(self)@,
                final(self)@,
                match outcome {
                    Ok((state, done)) => Ok((state@, done)),
                    Err(error) => Err(error),
                },
            ),
            final(self).setup() == old(self).setup(),
    {
        self.log.memory_checkpoint.clear();
        self.log.executor_mode = ExecutorMode::Checkpoint;
        let ghost start = self@;
        // The state is cloned without its memory, which is large.
        let mut memory: Table<MemoryRecord> = Table::new();
        let mut uninitialized_memory: Table<u32> = Table::new();
        std::mem::swap(&mut self.state.memory, &mut memory);
        std::mem::swap(&mut self.state.uninitialized_memory, &mut uninitialized_memory);
        let mut checkpoint = self.state.clone();
        self.state.memory = memory;
        self.state.uninitialized_memory = uninitialized_memory;
        assert(self@ == start);
        let executed = self.execute();
        let ghost last = self@;
        assert(self.setup().executed(start, last, executed));
        match executed {
            Err(error) => Err(error),
            Ok(done) => {
                checkpoint.memory = build_records(
                    &self.state.memory,
                    &self.log.memory_checkpoint,
                    done,
                );
                checkpoint.uninitialized_memory = build_initial_values(
                    &self.state.uninitialized_memory,
                    &self.log.uninitialized_memory_checkpoint,
                    done,
                );
                self.log.memory_checkpoint.clear();
                self.log.uninitialized_memory_checkpoint.clear();
                assert(checkpoint@ == last.machine.checkpoint(old(self)@.machine.state, done));
                Ok((checkpoint, done))
            },
        }
    }

    /// What is left to say when the program has ended.
    pub fn postprocess(&self) -> (report: Report<'_>)
        ensures
            match report.stderr {
                Some(text) => {
                    &&& self.log.io_buf@.contains_key(2)
                    &&& *text == self.log.io_buf@[2]
                    &&& text@.len() > 0
                },
                None => !self.log.io_buf@.contains_key(2) || self.log.io_buf@[2]@.len() == 0,
            },
            report.input_read == (self.state.input_stream_ptr == self.state.input_stream@.len()),
    {
        let stderr = match self.log.io_buf.get(2) {
            Some(text) => if text.as_str().is_empty() {
                None
            } else {
                Some(text)
            },
            None => None,
        };
        Report {
            stderr,
            input_read: self.state.input_stream_ptr == self.state.input_stream.len(),
        }
    }

    /// What the cycle tracer is to be told; nothing in unconstrained mode.
    pub fn log(&self) -> (entry: Option<TraceEntry>)
        ensures
            entry is Some <==> !self.log.unconstrained,
            entry matches Some(e) ==> {
                &&& forall|i: int|
                    0 <= i < 4 ==> #[trigger] e.pc_bytes@[i] == byte_of(self.state.pc, 3 - i)
                &&& e.progress == (self.state.global_clk % 10_000_000 == 0)
            },
    {
        if self.log.unconstrained {
            return None;
        }
        let pc: u32 = self.state.pc;
        let pc_bytes: [u8; 4] = [
            select_byte(pc, 3) as u8,
            select_byte(pc, 2) as u8,
            select_byte(pc, 1) as u8,
            select_byte(pc, 0) as u8,
        ];
        Some(TraceEntry { pc_bytes, progress: self.state.global_clk % 10_000_000 == 0 })
    }
}

/// Load the words of a memory image.
fn load_image(state: &mut ExecutionState, image: &Table<u32>)
    ensures
        final(state)@ == old(state)@.loaded(image@),
{
    let ghost mut seen: Map<u32, u32> = Map::empty();
    assert(state@ =~= old(state)@.loaded(seen));
    let count: usize = image.len();
    let mut i: usize = 0;
    while i < count
        invariant
            i <= count,
            count == image.keys().len(),
            image.keys_are_domain(),
            state@ == old(state)@.loaded(seen),
            seen.submap_of(image@),
            forall|j: int| 0 <= j < i ==> seen.contains_key(#[trigger] image.keys()[j]),
        decreases count - i,
    {
        let (addr, value) = image.entry_at(i);
        load_word(state, addr, *value);
        proof {
            old(state)@.lemma_loaded_word(seen, addr, *value);
            seen = seen.insert(addr, *value);
        }
        i = i + 1;
    }
    assert(seen =~= image@) by {
        assert forall|addr: u32| image@.contains_key(addr) implies seen.contains_key(addr) by {
            let j = choose|j: int| 0 <= j < image.keys().len() && image.keys()[j] == addr;
            assert(seen.contains_key(image.keys()[j]));
        }
    }
}

/// Put a word of the memory image into the sparse memory; the prefetch buffer follows.
fn load_word(state: &mut ExecutionState, addr: u32, value: u32)
    ensures
        final(state)@ == old(state)@.word_loaded(addr, value),
{
    let record = MemoryRecord { value, shard: 0, timestamp: 0 };
    let page_addr: u32 = addr - addr % MEMORY_PAGE_SIZE;
    let shadowed = match state.memory_pages.get(page_addr) {
        Some(page) => page.get(addr).is_some(),
        None => false,
    };
    state.memory.insert(addr, record);
    if !shadowed {
        state.prefetch_buffer.refresh(addr, record);
    }
}

/// The number that is found is at least as large as all that are reported, and is one of them, unless it is
/// zero; there is one such number.
pub proof fn law_largest(reported: Map<u32, u32>, cycles: u32, other: u32, code: u32)
    requires
        largest(reported, cycles),
        largest(reported, other),
    ensures
        cycles == other,
        reported.contains_key(code) ==> reported[code] <= cycles,
        cycles > 0 ==> exists|from: u32| #[trigger]
            reported.contains_key(from) && reported[from] == cycles,
{
}

} // verus!
