//! Runs of the executor: memory, control flow, system calls, errors and checkpoints.
use std::sync::Arc;

use rv32_executor::context::{Environment, SP1Context};
use rv32_executor::error::{mnemonic, ExecutionError};
use rv32_executor::events::{MemoryAccessPosition, MemoryRecord};
use rv32_executor::executor::{align, Executor};
use rv32_executor::hooks::{Hook, HookEnv, HookError, HookImpl, HookRegistry};
use rv32_executor::isa::{Instruction, Opcode, Program, Register};
use rv32_executor::loops::LoopPlan;
use rv32_executor::memory::RuntimeLog;
use rv32_executor::mode::ExecutorMode;
use rv32_executor::state::ExecutionState;
use rv32_executor::syscalls::{
    Syscall, SyscallArguments, SyscallContext, SyscallImpl, EXIT_UNCONSTRAINED, HALT, WRITE,
};
use rv32_executor::table::Table;

/// Ends the program with the exit code of the first argument.
struct Halt;

impl Syscall for Halt {
    fn execute(
        &self,
        ctx: &mut SyscallContext,
        _state: &mut ExecutionState,
        _log: &mut RuntimeLog,
        _hooks: &HookRegistry,
        arguments: SyscallArguments,
    ) -> Option<u32> {
        ctx.next_pc = 0;
        ctx.exit_code = arguments.arg1;
        None
    }

    fn num_extra_cycles(&self) -> u32 {
        0
    }
}

/// Gives back the sum of its arguments and writes it to memory.
struct Add;

impl Syscall for Add {
    fn execute(
        &self,
        ctx: &mut SyscallContext,
        state: &mut ExecutionState,
        log: &mut RuntimeLog,
        _hooks: &HookRegistry,
        arguments: SyscallArguments,
    ) -> Option<u32> {
        let sum = arguments.arg1 + arguments.arg2;
        log.mw(state, 0x100, sum, ctx.current_shard, ctx.clk, None);
        Some(sum)
    }

    fn num_extra_cycles(&self) -> u32 {
        7
    }
}

/// Puts what a hook replies to the standard error stream into its buffer.
struct Ask;

impl Syscall for Ask {
    fn execute(
        &self,
        _ctx: &mut SyscallContext,
        state: &mut ExecutionState,
        log: &mut RuntimeLog,
        hooks: &HookRegistry,
        arguments: SyscallArguments,
    ) -> Option<u32> {
        let hook = hooks.get(arguments.arg1)?;
        let reply = hook.implementation.invoke_hook(HookEnv { state, log }, &[1, 2, 3]);
        log.io_buf.insert(2, String::from_utf8(reply[0].clone()).unwrap());
        Some(reply.len() as u32)
    }

    fn num_extra_cycles(&self) -> u32 {
        2
    }
}

/// Replies a letter for each byte, and the program counter.
struct Letters;

impl Hook for Letters {
    fn invoke_hook(&self, env: HookEnv<'_>, buf: &[u8]) -> Vec<Vec<u8>> {
        vec![
            buf.iter().map(|byte| b'a' + byte).collect(),
            vec![env.state.pc as u8],
        ]
    }
}

fn share(implementation: Box<dyn Syscall>) -> Arc<SyscallImpl> {
    Arc::new(SyscallImpl { implementation })
}

fn imm(opcode: Opcode, a: u32, b: u32, c: u32) -> Instruction {
    Instruction::new(opcode, a, b, c, false, true)
}

fn ecall() -> Instruction {
    Instruction::new(Opcode::ECALL, 5, 10, 11, false, false)
}

fn executor(instructions: Vec<Instruction>) -> Executor {
    Executor::new(Program::new(instructions, 0, 0), Environment::empty())
}

fn letters() -> Arc<HookImpl> {
    Arc::new(HookImpl { implementation: Box::new(Letters) })
}

fn calling(instructions: Vec<Instruction>) -> Executor {
    let mut environment = Environment::empty();
    environment.syscall_map.insert(HALT, share(Box::new(Halt)));
    environment.syscall_map.insert(40, share(Box::new(Add)));
    environment.syscall_map.insert(41, share(Box::new(Ask)));
    environment.syscall_aliases.insert(41, 40);
    environment.hook_registry.register(9, letters());
    Executor::new(Program::new(instructions, 0, 0), environment)
}

fn assert_send<T: Send>() {}

#[test]
fn executor_is_send() {
    assert_send::<Executor>();
}

#[test]
fn addresses_are_aligned_down() {
    assert_eq!(align(0), 0);
    assert_eq!(align(7), 4);
    assert_eq!(align(8), 8);
    assert_eq!(align(u32::MAX), u32::MAX - 3);
}

#[test]
fn new_executor_starts_at_the_first_instruction() {
    let mut runtime = Executor::new(Program::new(vec![], 0x2000, 0x1000), Environment::empty());
    assert_eq!(runtime.state.pc, 0x2000);
    assert_eq!(runtime.shard(), 1);
    assert_eq!(runtime.state.clk, 0);
    assert_eq!(runtime.state.global_clk, 0);
    assert_eq!(runtime.registers(), [0u32; 32]);
    assert_eq!(runtime.max_cycles, None);
    assert_eq!(runtime.max_syscall_cycles, 0);
    assert!(runtime.log.executor_mode == ExecutorMode::Trace);
    assert!(!runtime.log.unconstrained);
    assert!(!runtime.print_report);
}

#[test]
fn register_zero_stays_zero() {
    let mut runtime = executor(vec![
        imm(Opcode::ADD, 0, 0, 5),
        imm(Opcode::ADD, 1, 0, 7),
        Instruction::new(Opcode::JAL, 0, 4, 0, true, true),
    ]);
    runtime.run().unwrap();
    assert_eq!(runtime.register(Register::X0), 0);
    assert_eq!(runtime.register(Register::X1), 7);
}

#[test]
fn immediate_operands_are_no_registers() {
    let mut runtime = executor(vec![Instruction::new(Opcode::ADD, 3, 100, 200, true, true)]);
    runtime.run().unwrap();
    assert_eq!(runtime.register(Register::X3), 300);
}

#[test]
fn stored_words_are_loaded_back() {
    let mut runtime = executor(vec![
        imm(Opcode::ADD, 1, 0, 0x8765_4321),
        imm(Opcode::ADD, 2, 0, 0x1000),
        imm(Opcode::SW, 1, 2, 8),
        imm(Opcode::LW, 3, 2, 8),
        imm(Opcode::LB, 4, 2, 8),
        imm(Opcode::LB, 5, 2, 11),
        imm(Opcode::LBU, 6, 2, 11),
        imm(Opcode::LH, 7, 2, 10),
        imm(Opcode::LHU, 8, 2, 10),
        imm(Opcode::LHU, 9, 2, 8),
    ]);
    runtime.run_fast().unwrap();
    let registers = runtime.registers();
    assert_eq!(registers[3], 0x8765_4321);
    assert_eq!(registers[4], 0x21);
    assert_eq!(registers[5], 0xffff_ff87);
    assert_eq!(registers[6], 0x87);
    assert_eq!(registers[7], 0xffff_8765);
    assert_eq!(registers[8], 0x8765);
    assert_eq!(registers[9], 0x4321);
    assert_eq!(runtime.word(0x1008), 0x8765_4321);
    assert_eq!(runtime.byte(0x1008), 0x21);
    assert_eq!(runtime.byte(0x100a), 0x65);
    assert_eq!(runtime.byte(0x100b), 0x87);
}

#[test]
fn partial_stores_keep_the_rest_of_the_word() {
    let mut runtime = executor(vec![
        imm(Opcode::ADD, 1, 0, 0xaabb_ccdd),
        imm(Opcode::SW, 1, 0, 0x40),
        imm(Opcode::ADD, 2, 0, 0x1122_3344),
        imm(Opcode::SB, 2, 0, 0x41),
        imm(Opcode::LW, 3, 0, 0x40),
        imm(Opcode::SH, 2, 0, 0x42),
        imm(Opcode::LW, 4, 0, 0x40),
        imm(Opcode::SB, 2, 0, 0x43),
        imm(Opcode::LW, 5, 0, 0x40),
    ]);
    runtime.run().unwrap();
    let registers = runtime.registers();
    assert_eq!(registers[3], 0xaabb_44dd);
    assert_eq!(registers[4], 0x3344_44dd);
    assert_eq!(registers[5], 0x4444_44dd);
}

#[test]
fn a_later_store_is_seen_by_looks_and_loads() {
    let mut runtime = executor(vec![
        imm(Opcode::ADD, 1, 0, 1),
        imm(Opcode::ADD, 2, 0, 2),
        imm(Opcode::SW, 1, 0, 0x80),
        imm(Opcode::LW, 3, 0, 0x80),
        imm(Opcode::SW, 2, 0, 0x80),
        imm(Opcode::LW, 4, 0, 0x80),
        imm(Opcode::SB, 1, 0, 0x81),
        imm(Opcode::LW, 5, 0, 0x80),
    ]);
    runtime.run().unwrap();
    let registers = runtime.registers();
    assert_eq!(registers[3], 1);
    assert_eq!(registers[4], 2);
    assert_eq!(registers[5], 0x102);
    assert_eq!(runtime.word(0x80), 0x102);
}

#[test]
fn the_memory_image_is_loaded() {
    let mut program = Program::new(vec![imm(Opcode::LW, 1, 0, 0x20)], 0, 0);
    program.memory_image.insert(0x20, 77);
    program.memory_image.insert(0x24, 78);
    let mut runtime = Executor::new(program, Environment::empty());
    runtime.run().unwrap();
    assert_eq!(runtime.register(Register::X1), 77);
    assert_eq!(runtime.word(0x24), 78);
    assert_eq!(runtime.word(0x28), 0);
}

#[test]
fn uninitialized_words_have_their_initial_values() {
    let mut runtime = executor(vec![imm(Opcode::LW, 1, 0, 0x30), imm(Opcode::LW, 2, 0, 0x34)]);
    runtime.state.uninitialized_memory.insert(0x30, 55);
    runtime.run().unwrap();
    assert_eq!(runtime.register(Register::X1), 55);
    assert_eq!(runtime.register(Register::X2), 0);
    assert_eq!(runtime.log.uninitialized_memory_checkpoint.get(0x30), Some(&true));
    assert_eq!(runtime.log.uninitialized_memory_checkpoint.get(0x34), Some(&false));
}

#[test]
fn reads_and_writes_leave_records() {
    let mut runtime = executor(vec![]);
    let write = runtime.mw(0x10, 5, 3, 8, None);
    assert_eq!((write.value, write.shard, write.timestamp), (5, 3, 8));
    assert_eq!((write.prev_value, write.prev_shard, write.prev_timestamp), (0, 0, 0));
    let read = runtime.mr(0x10, 3, 12, None);
    assert_eq!((read.value, read.shard, read.timestamp), (5, 3, 12));
    assert_eq!((read.prev_shard, read.prev_timestamp), (3, 8));
    let write = runtime.mw(0x10, 6, 4, 16, None);
    assert_eq!((write.prev_value, write.prev_shard, write.prev_timestamp), (5, 3, 12));
    let event = runtime.log.local_memory_access.get(0x10).unwrap();
    assert_eq!(event.addr, 0x10);
    assert_eq!(event.initial_mem_access, MemoryRecord { value: 0, shard: 0, timestamp: 0 });
    assert_eq!(event.final_mem_access, MemoryRecord { value: 6, shard: 4, timestamp: 16 });
}

#[test]
fn events_go_to_the_given_list() {
    let mut runtime = executor(vec![]);
    let mut events = Table::new();
    runtime.mw(0x10, 5, 1, 4, Some(&mut events));
    runtime.mr(0x10, 1, 8, Some(&mut events));
    assert_eq!(runtime.log.local_memory_access.len(), 0);
    assert_eq!(events.len(), 1);
    let event = events.get(0x10).unwrap();
    assert_eq!(event.initial_mem_access, MemoryRecord { value: 0, shard: 0, timestamp: 0 });
    assert_eq!(event.final_mem_access, MemoryRecord { value: 5, shard: 1, timestamp: 8 });
}

#[test]
fn accesses_at_the_current_time() {
    let mut runtime = executor(vec![]);
    runtime.state.clk = 100;
    assert_eq!(runtime.timestamp(&MemoryAccessPosition::Memory), 100);
    assert_eq!(runtime.timestamp(&MemoryAccessPosition::C), 101);
    assert_eq!(runtime.timestamp(&MemoryAccessPosition::B), 102);
    assert_eq!(runtime.timestamp(&MemoryAccessPosition::A), 103);
    runtime.mw_cpu(0x10, 9, MemoryAccessPosition::Memory);
    assert_eq!(
        runtime.state.get_memory(0x10),
        Some(&MemoryRecord { value: 9, shard: 1, timestamp: 100 })
    );
    assert_eq!(runtime.mr_cpu(0x10, MemoryAccessPosition::A), 9);
    assert_eq!(
        runtime.state.get_memory(0x10),
        Some(&MemoryRecord { value: 9, shard: 1, timestamp: 103 })
    );
}

#[test]
fn unconstrained_accesses_leave_no_events_but_a_way_back() {
    let mut runtime = executor(vec![]);
    runtime.mw(0x10, 5, 1, 4, None);
    runtime.log.unconstrained = true;
    runtime.mw(0x10, 6, 1, 8, None);
    runtime.mw(0x10, 7, 1, 12, None);
    runtime.mr(0x14, 1, 12, None);
    let first = MemoryRecord { value: 5, shard: 1, timestamp: 4 };
    let fork = &runtime.log.unconstrained_state;
    assert_eq!(fork.memory_diff.get(0x10), Some(&Some(first)));
    assert_eq!(
        fork.memory_diff.get(0x14),
        Some(&Some(MemoryRecord { value: 0, shard: 0, timestamp: 0 }))
    );
    assert_eq!(runtime.log.memory_checkpoint.get(0x10), Some(&Some(first)));
    let event = runtime.log.local_memory_access.get(0x10).unwrap();
    assert_eq!(event.final_mem_access, first);
    assert_eq!(runtime.log.local_memory_access.len(), 1);
}

#[test]
fn looks_at_absent_words_are_checkpointed() {
    let mut runtime = executor(vec![]);
    runtime.log.executor_mode = ExecutorMode::Checkpoint;
    assert_eq!(runtime.word(0x50), 0);
    assert_eq!(runtime.log.memory_checkpoint.get(0x50), Some(&None));
    assert!(runtime.log.memory_checkpoint.get(0x54).is_none());
}

#[test]
fn registers_are_read_and_written() {
    let mut runtime = executor(vec![]);
    runtime.state.clk = 8;
    runtime.rw(Register::X9, 21);
    runtime.rw(Register::X0, 21);
    assert_eq!(runtime.rr(Register::X9, MemoryAccessPosition::B), 21);
    assert_eq!(runtime.rr(Register::X0, MemoryAccessPosition::C), 0);
    assert_eq!(
        runtime.state.cold_registers[1],
        MemoryRecord { value: 21, shard: 1, timestamp: 11 }
    );
    assert_eq!(runtime.register(Register::X9), 21);
    assert_eq!(runtime.state.register_access_count[9], 1);
    runtime.registers();
    assert_eq!(runtime.state.register_access_count[9], 2);
    assert_eq!(runtime.state.register_access_count[31], 1);
}

#[test]
fn branches_compare() {
    let cases = [
        (Opcode::BEQ, 1, 1, true),
        (Opcode::BEQ, 1, 2, false),
        (Opcode::BNE, 1, 2, true),
        (Opcode::BNE, 2, 2, false),
        (Opcode::BLT, u32::MAX, 0, true),
        (Opcode::BLT, 0, u32::MAX, false),
        (Opcode::BGE, 0, u32::MAX, true),
        (Opcode::BGE, u32::MAX, 0, false),
        (Opcode::BLTU, 0, u32::MAX, true),
        (Opcode::BLTU, u32::MAX, 0, false),
        (Opcode::BGEU, u32::MAX, 0, true),
        (Opcode::BGEU, 0, u32::MAX, false),
    ];
    for (opcode, a, b, taken) in cases {
        let mut runtime = executor(vec![]);
        runtime.state.pc = 0x100;
        runtime.rw(Register::X1, a);
        runtime.rw(Register::X2, b);
        runtime.execute_single_instruction(&imm(opcode, 1, 2, 0x40)).unwrap();
        assert_eq!(runtime.state.pc, if taken { 0x140 } else { 0x104 });
        assert_eq!(runtime.state.clk, 4);
    }
}

#[test]
fn a_branch_that_is_not_taken_goes_on_whatever_was_predicted() {
    let mut runtime = executor(vec![]);
    let branch = imm(Opcode::BEQ, 1, 2, 0x40);
    for _ in 0..10 {
        runtime.state.pc = 0x100;
        runtime.execute_single_instruction(&branch).unwrap();
        assert_eq!(runtime.state.pc, 0x140);
    }
    assert_eq!(runtime.state.branch_predictor.predict(0x100, Opcode::BEQ), (true, Some(0x140)));
    runtime.state.pc = 0x100;
    runtime.rw(Register::X1, 1);
    runtime.execute_single_instruction(&branch).unwrap();
    assert_eq!(runtime.state.pc, 0x104);
}

#[test]
fn loops_end() {
    let mut runtime = executor(vec![
        imm(Opcode::ADD, 1, 0, 1000),
        imm(Opcode::ADD, 2, 2, 3),
        imm(Opcode::ADD, 1, 1, u32::MAX),
        imm(Opcode::BNE, 1, 0, (-8i32) as u32),
        imm(Opcode::ADD, 3, 2, 1),
    ]);
    runtime.run().unwrap();
    assert_eq!(runtime.register(Register::X2), 3000);
    assert_eq!(runtime.register(Register::X3), 3001);
    assert_eq!(runtime.state.global_clk, 3002);
    assert_eq!(runtime.state.clk, 4 * 3002);
}

#[test]
fn jumps_leave_the_way_back() {
    let mut runtime = executor(vec![]);
    runtime.state.pc = 0x100;
    runtime
        .execute_single_instruction(&Instruction::new(Opcode::JAL, 1, 0x20, 0, true, true))
        .unwrap();
    assert_eq!(runtime.state.pc, 0x120);
    assert_eq!(runtime.register(Register::X1), 0x104);
    runtime.execute_single_instruction(&imm(Opcode::JALR, 2, 1, 4)).unwrap();
    assert_eq!(runtime.state.pc, 0x108);
    assert_eq!(runtime.register(Register::X2), 0x124);
    runtime
        .execute_single_instruction(&Instruction::new(Opcode::AUIPC, 3, 0x5000, 0, true, true))
        .unwrap();
    assert_eq!(runtime.register(Register::X3), 0x5108);
    assert_eq!(runtime.state.pc, 0x10c);
}

#[test]
fn each_cycle_counts_and_takes_four_steps() {
    let mut runtime = executor(vec![
        imm(Opcode::ADD, 1, 0, 5),
        imm(Opcode::DIV, 2, 1, 5),
        imm(Opcode::MUL, 3, 1, 5),
    ]);
    assert_eq!(runtime.execute_cycle(), Ok(false));
    assert_eq!(runtime.state.clk, 4);
    assert_eq!(runtime.execute_cycle(), Ok(false));
    assert_eq!(runtime.state.clk, 8);
    assert_eq!(runtime.execute_cycle(), Ok(true));
    assert_eq!(runtime.state.clk, 12);
    assert_eq!(runtime.state.global_clk, 3);
    assert_eq!(runtime.state.pc, 12);
}

#[test]
fn a_cycle_can_be_taken_in_two_parts() {
    let mut runtime = executor(vec![imm(Opcode::ADD, 1, 0, 5), imm(Opcode::ADD, 2, 1, 5)]);
    let (instruction, plan) = runtime.begin_cycle();
    assert_eq!(instruction, imm(Opcode::ADD, 1, 0, 5));
    assert!(plan == LoopPlan::Single);
    assert_eq!(runtime.finish_cycle(&instruction), Ok(false));
    assert_eq!(runtime.fetch(), imm(Opcode::ADD, 2, 1, 5));
    assert_eq!(runtime.execute_cycle(), Ok(true));
    assert_eq!(runtime.register(Register::X2), 10);
}

#[test]
fn there_may_be_no_instruction_to_fetch() {
    let mut runtime = executor(vec![imm(Opcode::ADD, 1, 0, 5)]);
    assert!(runtime.can_fetch());
    runtime.state.pc = 4;
    assert!(!runtime.can_fetch());
    runtime.state.icache.insert(4, Instruction::default());
    assert!(runtime.can_fetch());
    assert_eq!(runtime.fetch(), Instruction::default());
}

#[test]
fn the_program_is_loaded_before_the_first_cycle_only() {
    let mut program = Program::new(vec![imm(Opcode::ADD, 1, 0, 5)], 0, 0);
    program.memory_image.insert(0x20, 77);
    let mut runtime = Executor::new(program, Environment::empty());
    assert_eq!(runtime.word(0x20), 0);
    runtime.state.clk = 9;
    runtime.state.global_clk = 1;
    runtime.start();
    assert_eq!(runtime.word(0x20), 0);
    assert_eq!(runtime.state.clk, 9);
    runtime.mw(0x20, 5, 1, 1, None);
    assert_eq!(runtime.word(0x20), 5);
    runtime.state.global_clk = 0;
    runtime.start();
    assert_eq!(runtime.word(0x20), 77);
    assert_eq!(runtime.state.clk, 0);
}

#[test]
fn instructions_that_come_in_are_executed_at_once() {
    let mut runtime = executor(vec![]);
    for i in 0..100u32 {
        runtime.execute_instruction(&imm(Opcode::ADD, 1, 1, i)).unwrap();
    }
    assert_eq!(runtime.register(Register::X1), 4950);
    assert_eq!(runtime.state.clk, 400);
}

#[test]
fn the_same_program_gives_the_same_run() {
    let program = || {
        Program::new(
            vec![
                imm(Opcode::ADD, 1, 1, 3),
                imm(Opcode::SW, 1, 0, 0x100),
                imm(Opcode::LW, 2, 0, 0x100),
                imm(Opcode::BEQ, 1, 2, 8),
                imm(Opcode::ADD, 3, 0, 1),
                imm(Opcode::ADD, 4, 0, 2),
            ],
            0,
            0,
        )
    };
    let mut first = Executor::new(program(), Environment::empty());
    let mut second = Executor::new(program(), Environment::empty());
    first.run().unwrap();
    second.run().unwrap();
    assert_eq!(first.registers(), second.registers());
    assert_eq!(first.state.clk, second.state.clk);
    assert_eq!(first.state.pc, second.state.pc);
    assert_eq!(first.register(Register::X3), 0);
    assert_eq!(first.register(Register::X4), 2);
    assert_eq!(first.state.global_clk, 5);
}

#[test]
fn runs_set_the_mode() {
    let mut runtime = executor(vec![imm(Opcode::ADD, 1, 0, 5)]);
    runtime.run_fast().unwrap();
    assert!(runtime.log.executor_mode == ExecutorMode::Simple);
    assert!(runtime.print_report);
    let mut runtime = executor(vec![imm(Opcode::ADD, 1, 0, 5)]);
    runtime.run().unwrap();
    assert!(runtime.log.executor_mode == ExecutorMode::Trace);
    assert!(runtime.print_report);
    assert!(ExecutorMode::default() == ExecutorMode::Simple);
}

#[test]
fn a_fast_run_agrees_with_a_traced_one_but_emits_no_events() {
    let program = || {
        Program::new(
            vec![
                imm(Opcode::ADD, 1, 0, 5),
                imm(Opcode::SW, 1, 0, 0x100),
                imm(Opcode::LW, 2, 0, 0x100),
                imm(Opcode::MUL, 3, 2, 7),
                imm(Opcode::LH, 4, 0, 1),
            ],
            0,
            0,
        )
    };
    let mut fast = Executor::new(program(), Environment::empty());
    let mut traced = Executor::new(program(), Environment::empty());
    fast.mw(0x200, 1, 1, 1, None);
    traced.mw(0x200, 1, 1, 1, None);
    assert_eq!(fast.run_fast(), traced.run());
    assert_eq!(fast.registers(), traced.registers());
    assert_eq!(fast.state.pc, traced.state.pc);
    assert_eq!(fast.state.clk, traced.state.clk);
    assert_eq!(fast.state.global_clk, traced.state.global_clk);
    assert_eq!(fast.word(0x100), traced.word(0x100));
    assert_eq!(traced.log.local_memory_access.len(), 3);
    assert_eq!(fast.log.local_memory_access.len(), 1);
    assert!(fast.log.local_memory_access.contains(0x200));
}

#[test]
fn quotients_and_remainders_make_up_the_dividend() {
    let values = [0, 1, 2, 7, 0x7fff_ffff, 0x8000_0000, 0x8000_0001, 0xffff_fff9, u32::MAX];
    for b in values {
        for c in values {
            for (div, rem) in [(Opcode::DIV, Opcode::REM), (Opcode::DIVU, Opcode::REMU)] {
                let mut runtime = executor(vec![
                    Instruction::new(div, 1, b, c, true, true),
                    Instruction::new(rem, 2, b, c, true, true),
                ]);
                runtime.run().unwrap();
                let q = runtime.register(Register::X1);
                let r = runtime.register(Register::X2);
                assert_eq!(q.wrapping_mul(c).wrapping_add(r), b);
            }
        }
    }
}

#[test]
fn high_and_low_words_make_up_the_product() {
    let values = [0, 1, 3, 0x7fff_ffff, 0x8000_0000, 0xffff_fff9, u32::MAX];
    for b in values {
        for c in values {
            let mut runtime = executor(vec![
                Instruction::new(Opcode::MUL, 1, b, c, true, true),
                Instruction::new(Opcode::MULH, 2, b, c, true, true),
                Instruction::new(Opcode::MULHU, 3, b, c, true, true),
                Instruction::new(Opcode::MULHSU, 4, b, c, true, true),
            ]);
            runtime.run().unwrap();
            let registers = runtime.registers();
            let join = |high: u32| (i64::from(high as i32) << 32) | i64::from(registers[1]);
            let (sb, sc) = (i64::from(b as i32), i64::from(c as i32));
            assert_eq!(join(registers[2]), sb * sc);
            assert_eq!(
                (u64::from(registers[3]) << 32) | u64::from(registers[1]),
                u64::from(b) * u64::from(c)
            );
            assert_eq!(join(registers[4]), sb * i64::from(c));
        }
    }
}

#[test]
fn the_bytes_of_a_word_come_lowest_first() {
    let mut runtime = executor(vec![]);
    runtime.mw(0x40, 0x8765_4321, 1, 1, None);
    let bytes = [runtime.byte(0x40), runtime.byte(0x41), runtime.byte(0x42), runtime.byte(0x43)];
    assert_eq!(bytes, 0x8765_4321u32.to_le_bytes());
}

#[test]
fn a_recovered_executor_goes_on() {
    let program = || Program::new(vec![imm(Opcode::ADD, 1, 1, 5), imm(Opcode::ADD, 1, 1, 6)], 0, 0);
    let mut first = Executor::new(program(), Environment::empty());
    assert_eq!(first.execute_cycle(), Ok(false));
    let mut second = Executor::recover(program(), Environment::empty(), first.state.clone());
    second.run().unwrap();
    assert_eq!(second.register(Register::X1), 11);
    assert_eq!(second.state.global_clk, 2);
}

#[test]
fn misaligned_accesses_fail() {
    let cases = [
        (Opcode::LH, 0x101),
        (Opcode::LHU, 0x103),
        (Opcode::LW, 0x102),
        (Opcode::SH, 0x101),
        (Opcode::SW, 0x101),
    ];
    for (opcode, addr) in cases {
        let mut runtime = executor(vec![imm(Opcode::ADD, 1, 0, 9), imm(opcode, 1, 0, addr)]);
        assert_eq!(runtime.run(), Err(ExecutionError::InvalidMemoryAccess(opcode, addr)));
        assert_eq!(runtime.state.pc, 4);
        assert_eq!(runtime.register(Register::X1), 9);
        assert_eq!(runtime.word(0x100), 0);
    }
}

#[test]
fn breakpoints_and_unknown_instructions_fail() {
    let mut runtime = executor(vec![Instruction::new(Opcode::EBREAK, 0, 0, 0, false, false)]);
    assert_eq!(runtime.run(), Err(ExecutionError::Breakpoint()));
    let mut runtime = executor(vec![Instruction::default()]);
    assert_eq!(runtime.run_fast(), Err(ExecutionError::Unimplemented()));
    assert_eq!(runtime.state.pc, 0);
    assert_eq!(runtime.state.global_clk, 0);
}

#[test]
fn the_cycle_limit_ends_a_run() {
    let instructions = vec![imm(Opcode::ADD, 1, 1, 1), Instruction::new(Opcode::JAL, 0, 0, 0, true, true)];
    let mut context = SP1Context::default();
    context.max_cycles = Some(1000);
    let mut runtime = Executor::with_context(Program::new(instructions, 0, 0), Environment::empty(), context);
    assert_eq!(runtime.run(), Err(ExecutionError::ExceededCycleLimit(1000)));
    assert_eq!(runtime.state.global_clk, 1000);
    assert_eq!(runtime.register(Register::X1), 1);
    let mut context = SP1Context::default();
    context.max_cycles = Some(3);
    let program = Program::new(vec![imm(Opcode::ADD, 1, 1, 1), imm(Opcode::ADD, 1, 1, 1)], 0, 0);
    let mut runtime = Executor::with_context(program, Environment::empty(), context);
    assert_eq!(runtime.run(), Ok(()));
}

#[test]
fn a_program_may_not_end_in_unconstrained_mode() {
    let mut runtime = executor(vec![imm(Opcode::ADD, 1, 0, 5)]);
    runtime.log.unconstrained = true;
    assert_eq!(runtime.execute(), Err(ExecutionError::EndInUnconstrained()));
    assert_eq!(runtime.register(Register::X1), 5);
}

#[test]
fn system_calls_get_arguments_and_give_results() {
    let mut runtime = calling(vec![
        imm(Opcode::ADD, 5, 0, 40),
        imm(Opcode::ADD, 10, 0, 30),
        imm(Opcode::ADD, 11, 0, 12),
        ecall(),
        imm(Opcode::ADD, 1, 5, 0),
    ]);
    assert_eq!(runtime.max_syscall_cycles, 7);
    runtime.run().unwrap();
    assert_eq!(runtime.register(Register::X5), 42);
    assert_eq!(runtime.register(Register::X1), 42);
    assert_eq!(runtime.word(0x100), 42);
    assert_eq!(runtime.state.clk, 5 * 4 + 7);
    assert_eq!(runtime.state.syscall_counts.get(40), Some(&1));
}

#[test]
fn halting_ends_the_program() {
    let mut runtime = calling(vec![ecall(), imm(Opcode::ADD, 1, 0, 5)]);
    runtime.run().unwrap();
    assert_eq!(runtime.state.pc, 0);
    assert_eq!(runtime.register(Register::X1), 0);
    assert_eq!(runtime.register(Register::X5), HALT);
    let mut runtime = calling(vec![imm(Opcode::ADD, 10, 0, 3), ecall()]);
    assert_eq!(runtime.run(), Err(ExecutionError::HaltWithNonZeroExitCode(3)));
    assert_eq!(runtime.state.pc, 4);
}

#[test]
fn unknown_system_calls_fail() {
    let mut runtime = calling(vec![imm(Opcode::ADD, 5, 0, 99), ecall()]);
    assert_eq!(runtime.run(), Err(ExecutionError::UnsupportedSyscall(99)));
    assert_eq!(runtime.state.syscall_counts.get(99), Some(&1));
    assert_eq!(runtime.register(Register::X5), 99);
}

#[test]
fn system_calls_are_refused_in_unconstrained_mode() {
    let mut runtime = calling(vec![imm(Opcode::ADD, 5, 0, 40), ecall()]);
    runtime.log.unconstrained = true;
    assert_eq!(runtime.run(), Err(ExecutionError::InvalidSyscallUsage(40)));
    assert!(runtime.state.syscall_counts.get(40).is_none());
    assert_eq!(runtime.word(0x100), 0);
    for code in [WRITE, EXIT_UNCONSTRAINED] {
        let mut runtime = calling(vec![imm(Opcode::ADD, 5, 0, code), ecall()]);
        runtime.log.unconstrained = true;
        assert_eq!(runtime.run(), Err(ExecutionError::UnsupportedSyscall(code)));
    }
}

#[test]
fn a_system_call_is_counted_under_its_alias_and_may_use_hooks() {
    let mut runtime = calling(vec![
        imm(Opcode::ADD, 5, 0, 41),
        imm(Opcode::ADD, 10, 0, 9),
        ecall(),
    ]);
    runtime.run().unwrap();
    assert_eq!(runtime.register(Register::X5), 2);
    assert_eq!(runtime.state.syscall_counts.get(40), Some(&1));
    assert!(runtime.state.syscall_counts.get(41).is_none());
    let report = runtime.postprocess();
    assert_eq!(report.stderr, Some(&String::from("bcd")));
    assert!(report.input_read);
}

#[test]
fn hot_system_calls_do_the_same_as_cold_ones() {
    let mut runtime = calling(vec![]);
    for i in 0..250u32 {
        runtime.rw(Register::X5, 40);
        runtime.rw(Register::X10, i);
        runtime.rw(Register::X11, 1000);
        runtime.execute_single_instruction(&ecall()).unwrap();
        assert_eq!(runtime.register(Register::X5), 1000 + i);
        assert_eq!(runtime.state.syscall_stats.is_hot_syscall(40), i >= 99);
        assert_eq!(runtime.syscall_cache.lookup(40).is_some(), i >= 99);
    }
    assert_eq!(runtime.state.syscall_counts.get(40), Some(&250));
}

#[test]
fn a_call_is_prepared_and_finished() {
    let mut runtime = calling(vec![]);
    runtime.rw(Register::X5, 40);
    runtime.rw(Register::X10, 1);
    runtime.rw(Register::X11, 2);
    let (arguments, found) = runtime.prepare_call();
    assert_eq!(arguments, SyscallArguments { code: 40, arg1: 1, arg2: 2 });
    assert_eq!(found.unwrap().implementation.num_extra_cycles(), 7);
    let context = SyscallContext { current_shard: 1, clk: 0, next_pc: 0x80, exit_code: 9 };
    assert_eq!(runtime.finish_call(40, context, Some(17), 3), Ok(()));
    assert_eq!(runtime.register(Register::X5), 17);
    assert_eq!(runtime.state.pc, 0x80);
    assert_eq!(runtime.state.clk, 7);
    assert_eq!(runtime.finish_call(40, context, None, 0), Ok(()));
    assert_eq!(runtime.register(Register::X5), 40);
    assert_eq!(
        runtime.finish_call(HALT, context, None, 0),
        Err(ExecutionError::HaltWithNonZeroExitCode(9))
    );
    assert_eq!(runtime.state.clk, 11);
}

#[test]
fn hooks_are_found_by_their_file_descriptors() {
    let mut runtime = calling(vec![]);
    runtime.state.pc = 7;
    assert_eq!(runtime.hook(9, &[0, 1]), Ok(vec![b"ab".to_vec(), vec![7]]));
    assert_eq!(runtime.hook(8, &[0, 1]), Err(HookError::NotFound(8)));
    assert_eq!(runtime.hook_env().state.pc, 7);
}

#[test]
fn the_hooks_of_a_context_come_before_those_of_the_environment() {
    let mut environment = Environment::empty();
    environment.hook_registry.register(9, letters());
    let mut registry = HookRegistry::empty();
    registry.register(8, letters());
    let context = SP1Context { hook_registry: Some(registry), max_cycles: None };
    let runtime = Executor::with_context(Program::new(vec![], 0, 0), environment, context);
    assert_eq!(runtime.hook(8, &[0, 1]), Ok(vec![b"ab".to_vec(), vec![0]]));
    assert_eq!(runtime.hook(9, &[0, 1]), Err(HookError::NotFound(9)));
}

#[test]
fn a_system_call_does_what_the_environment_says() {
    let program = || Program::new(vec![imm(Opcode::ADD, 5, 0, HALT), ecall()], 0, 0);
    let mut runtime = calling(vec![imm(Opcode::ADD, 5, 0, HALT), ecall()]);
    assert_eq!(runtime.run(), Ok(()));
    let mut runtime = Executor::new(program(), Environment::empty());
    assert_eq!(runtime.run(), Err(ExecutionError::UnsupportedSyscall(HALT)));
    let mut environment = Environment::empty();
    environment.syscall_map.insert(HALT, share(Box::new(Halt)));
    let mut runtime = Executor::recover(program(), environment, ExecutionState::new(0));
    assert_eq!(runtime.run(), Ok(()));
}

#[test]
fn every_instruction_takes_four_steps() {
    for instruction in [
        imm(Opcode::LW, 1, 0, 0x40),
        imm(Opcode::LB, 1, 0, 0x41),
        imm(Opcode::SW, 1, 0, 0x44),
        imm(Opcode::SH, 1, 0, 0x46),
        Instruction::new(Opcode::JAL, 1, 8, 0, true, true),
        imm(Opcode::JALR, 1, 2, 8),
        Instruction::new(Opcode::AUIPC, 1, 0x1000, 0, true, true),
        imm(Opcode::BEQ, 1, 2, 8),
        imm(Opcode::DIV, 1, 2, 8),
    ] {
        let mut runtime = executor(vec![]);
        runtime.state.clk = 100;
        runtime.execute_single_instruction(&instruction).unwrap();
        assert_eq!(runtime.state.clk, 104);
    }
}

#[test]
fn a_checkpoint_has_the_words_of_pages() {
    let record = |value| MemoryRecord { value, shard: 3, timestamp: 7 };
    let mut runtime = executor(vec![
        imm(Opcode::ADD, 1, 0, 5),
        imm(Opcode::SW, 1, 0, 0x100),
        imm(Opcode::SW, 1, 0, 0x104),
        imm(Opcode::SW, 1, 0, 0x108),
    ]);
    runtime.state.set_memory(0x104, record(20));
    runtime.state.get_or_create_page(0x100);
    runtime.state.set_memory(0x100, record(10));
    runtime.state.set_memory(0x10c, record(30));
    let (checkpoint, done) = runtime.execute_state().unwrap();
    assert!(done);
    assert_eq!(runtime.word(0x100), 5);
    assert_eq!(runtime.word(0x104), 5);
    assert_eq!(runtime.word(0x108), 5);
    assert_eq!(checkpoint.get_memory(0x100), Some(&record(10)));
    assert_eq!(checkpoint.get_memory(0x104), Some(&record(20)));
    assert_eq!(checkpoint.get_memory(0x108), None);
    assert_eq!(checkpoint.get_memory(0x10c), Some(&record(30)));
}

#[test]
fn a_checkpoint_is_the_state_from_before() {
    let program = || {
        let mut program = Program::new(
            vec![
                imm(Opcode::ADD, 1, 0, 5),
                imm(Opcode::SW, 1, 0, 0x100),
                imm(Opcode::LW, 2, 0, 0x104),
                imm(Opcode::SW, 1, 0, 0x108),
                imm(Opcode::LW, 3, 0, 0x10c),
            ],
            0,
            0,
        );
        program.memory_image.insert(0x100, 10);
        program.memory_image.insert(0x104, 20);
        program.memory_image.insert(0x200, 30);
        program
    };
    let mut runtime = Executor::new(program(), Environment::empty());
    runtime.state.uninitialized_memory.insert(0x10c, 40);
    runtime.state.uninitialized_memory.insert(0x108, 0);
    let (checkpoint, done) = runtime.execute_state().unwrap();
    assert!(done);
    assert_eq!(runtime.word(0x100), 5);
    assert_eq!(runtime.register(Register::X3), 40);
    assert_eq!(checkpoint.pc, 0);
    assert_eq!(checkpoint.global_clk, 0);
    let untouched = |value| MemoryRecord { value, shard: 0, timestamp: 0 };
    assert_eq!(checkpoint.get_memory(0x100), Some(&untouched(10)));
    assert_eq!(checkpoint.get_memory(0x104), Some(&untouched(20)));
    assert_eq!(checkpoint.get_memory(0x200), Some(&untouched(30)));
    assert_eq!(checkpoint.get_memory(0x108), None);
    assert_eq!(checkpoint.get_memory(0x10c), None);
    assert_eq!(checkpoint.memory.len(), 3);
    assert_eq!(checkpoint.uninitialized_memory.get(0x10c), Some(&40));
    assert_eq!(checkpoint.uninitialized_memory.get(0x108), None);
    assert_eq!(runtime.log.memory_checkpoint.len(), 0);
    assert_eq!(runtime.log.uninitialized_memory_checkpoint.len(), 0);
    let mut again = Executor::recover(program(), Environment::empty(), checkpoint);
    again.run().unwrap();
    assert_eq!(again.registers(), runtime.registers());
    assert_eq!(again.word(0x100), 5);
}

#[test]
fn a_checkpoint_has_no_word_that_was_not_there() {
    let mut runtime = executor(vec![imm(Opcode::LW, 1, 0, 0x40), imm(Opcode::SW, 1, 0, 0x44)]);
    let (checkpoint, done) = runtime.execute_state().unwrap();
    assert!(done);
    assert_eq!(checkpoint.memory.len(), 0);
    assert_eq!(runtime.state.memory.len(), 2);
}

#[test]
fn a_failed_batch_gives_no_checkpoint() {
    let mut runtime = executor(vec![imm(Opcode::LW, 1, 0, 1)]);
    assert!(matches!(
        runtime.execute_state(),
        Err(ExecutionError::InvalidMemoryAccess(Opcode::LW, 1))
    ));
}

#[test]
fn reports_say_what_is_left() {
    let mut runtime = executor(vec![]);
    runtime.state.input_stream.push(vec![1, 2, 3]);
    runtime.log.io_buf.insert(1, String::from("out"));
    runtime.log.io_buf.insert(2, String::new());
    let report = runtime.postprocess();
    assert_eq!(report.stderr, None);
    assert!(!report.input_read);
    runtime.state.input_stream_ptr = 1;
    assert!(runtime.postprocess().input_read);
}

#[test]
fn the_tracer_is_told_the_program_counter() {
    let mut runtime = executor(vec![]);
    runtime.state.pc = 0x1234_5678;
    let entry = runtime.log().unwrap();
    assert_eq!(entry.pc_bytes, [0x12, 0x34, 0x56, 0x78]);
    assert!(entry.progress);
    runtime.state.global_clk = 10_000_001;
    assert!(!runtime.log().unwrap().progress);
    runtime.state.global_clk = 20_000_000;
    assert!(runtime.log().unwrap().progress);
    runtime.log.unconstrained = true;
    assert!(runtime.log().is_none());
}

#[test]
fn errors_have_messages() {
    let cases = [
        (ExecutionError::HaltWithNonZeroExitCode(3), "execution failed with exit code 3"),
        (
            ExecutionError::InvalidMemoryAccess(Opcode::LHU, 4097),
            "invalid memory access for opcode lhu and address 4097",
        ),
        (ExecutionError::UnsupportedSyscall(120), "unimplemented syscall 120"),
        (ExecutionError::Breakpoint(), "breakpoint encountered"),
        (
            ExecutionError::ExceededCycleLimit(u64::MAX),
            "exceeded cycle limit of 18446744073709551615",
        ),
        (ExecutionError::InvalidSyscallUsage(1), "syscall called in unconstrained mode"),
        (ExecutionError::Unimplemented(), "got unimplemented as opcode"),
        (ExecutionError::EndInUnconstrained(), "program ended in unconstrained mode"),
    ];
    for (error, message) in cases {
        assert_eq!(error.message(), message);
    }
    assert_eq!(ExecutionError::UnsupportedSyscall(0).message(), "unimplemented syscall 0");
    assert_eq!(mnemonic(Opcode::MULHSU), "mulhsu");
}
