//! The parts of the executor on their own.
use std::sync::Arc;

use rv32_executor::access::MemoryAccessTracker;
use rv32_executor::alu::alu;
use rv32_executor::branch::BranchPredictor;
use rv32_executor::checkpoint::{build_initial_values, build_records};
use rv32_executor::context::Environment;
use rv32_executor::events::{MemoryAccessPosition, MemoryRecord};
use rv32_executor::executor::{find_largest, Executor};
use rv32_executor::hooks::HookRegistry;
use rv32_executor::icache::InstructionCache;
use rv32_executor::isa::{Instruction, Opcode, Program, Register};
use rv32_executor::lanes::{load, select_byte, store};
use rv32_executor::loops::{LoopPlan, LoopTracker};
use rv32_executor::memory::RuntimeLog;
use rv32_executor::prefetch::{PrefetchBuffer, StridePredictor};
use rv32_executor::regalloc::RegisterAllocator;
use rv32_executor::scheduler::InstructionScheduler;
use rv32_executor::state::{ExecutionState, MemoryPage};
use rv32_executor::syscalls::{
    Syscall, SyscallArguments, SyscallCache, SyscallContext, SyscallImpl, SyscallStats,
};
use rv32_executor::table::Table;

fn record(value: u32) -> MemoryRecord {
    MemoryRecord { value, shard: 1, timestamp: value }
}

fn imm(opcode: Opcode, a: u32, b: u32, c: u32) -> Instruction {
    Instruction::new(opcode, a, b, c, false, true)
}

#[test]
fn a_table_gives_back_what_was_stored() {
    let mut table = Table::new();
    for key in 0..1000u32 {
        table.insert(key * 7919, key);
    }
    table.insert(0, 5);
    table.insert_if_absent(0, 6);
    table.insert_if_absent(1, 7);
    assert_eq!(table.len(), 1001);
    assert_eq!(table.get(0), Some(&5));
    assert_eq!(table.get(1), Some(&7));
    assert_eq!(table.get(2 * 7919), Some(&2));
    assert_eq!(table.get(2), None);
    assert!(table.contains(999 * 7919));
    assert!(!table.contains(3));
    *table.get_mut(1).unwrap() += 10;
    assert_eq!(table.get(1), Some(&17));
    assert!(table.get_mut(2).is_none());
}

#[test]
fn a_table_forgets_what_was_removed() {
    let mut table = Table::new();
    for key in 0..10u32 {
        table.insert(key, key + 100);
    }
    assert_eq!(table.remove(0), Some(100));
    assert_eq!(table.remove(0), None);
    assert_eq!(table.remove(9), Some(109));
    assert_eq!(table.len(), 8);
    for key in 1..9 {
        assert_eq!(table.get(key), Some(&(key + 100)));
    }
    let copy = table.duplicate();
    table.clear();
    assert_eq!(table.len(), 0);
    assert_eq!(table.get(1), None);
    assert_eq!(copy.len(), 8);
    let mut sum: u32 = 0;
    for i in 0..copy.len() {
        let (key, value) = copy.entry_at(i);
        assert_eq!(*value, key + 100);
        sum += key;
    }
    assert_eq!(sum, 36);
}

#[test]
fn the_largest_number_is_found() {
    let mut reported = Table::new();
    assert_eq!(find_largest(&reported), 0);
    reported.insert(1, 5);
    reported.insert(2, 9);
    reported.insert(3, 7);
    assert_eq!(find_largest(&reported), 9);
}

#[test]
fn a_prefetch_buffer_holds_the_latest_records() {
    let mut buffer = PrefetchBuffer::default();
    assert_eq!(buffer.lookup(0), None);
    for i in 0..40u32 {
        buffer.insert(i * 4, record(i));
    }
    assert_eq!(buffer.lookup(7 * 4), None);
    assert_eq!(buffer.lookup(8 * 4), Some(&record(8)));
    assert_eq!(buffer.lookup(39 * 4), Some(&record(39)));
    buffer.refresh(39 * 4, record(1000));
    buffer.refresh(0, record(1001));
    assert_eq!(buffer.lookup(39 * 4), Some(&record(1000)));
    assert_eq!(buffer.lookup(38 * 4), Some(&record(38)));
    assert_eq!(buffer.lookup(0), None);
}

#[test]
fn a_stride_predictor_knows_repeated_addresses() {
    let mut predictor = StridePredictor::default();
    assert_eq!(predictor.predict_next_addr(0x100), None);
    assert_eq!(predictor.predict_next_addr(0x104), None);
    assert_eq!(predictor.predict_next_addr(0x100), Some(0x100));
    assert_eq!(predictor.predict_next_addr(0), None);
    assert_eq!(predictor.predict_next_addr(0), None);
}

#[test]
fn an_instruction_cache_holds_one_instruction_for_each_slot() {
    let mut cache = InstructionCache::default();
    let first = imm(Opcode::ADD, 1, 0, 1);
    let second = imm(Opcode::ADD, 2, 0, 2);
    assert_eq!(cache.lookup(0), None);
    cache.insert(0x10, first);
    assert_eq!(cache.lookup(0x10), Some(first));
    assert_eq!(cache.lookup(0x410), None);
    cache.insert(0x14, second);
    assert_eq!(cache.lookup(0x10), Some(first));
    cache.insert(0x410, second);
    assert_eq!(cache.lookup(0x10), None);
    assert_eq!(cache.lookup(0x410), Some(second));
}

#[test]
fn a_branch_predictor_learns() {
    let mut predictor = BranchPredictor::default();
    assert_eq!(predictor.predict(0x40, Opcode::BEQ), (true, None));
    for _ in 0..12 {
        predictor.update(0x40, Opcode::BEQ, true, 0x80);
    }
    assert_eq!(predictor.predict(0x40, Opcode::BEQ), (true, Some(0x80)));
    for _ in 0..12 {
        predictor.update(0x40, Opcode::BEQ, false, 0x44);
    }
    assert_eq!(predictor.predict(0x40, Opcode::BEQ), (false, None));
    assert_eq!(predictor.predict(0x40, Opcode::ADD), (false, None));
    assert_eq!(predictor.accuracy_counts().1, 4);
    assert!(predictor.accuracy_counts().0 <= 24);
}

#[test]
fn a_new_branch_predictor_is_weakly_taken() {
    for pc in [0, 4, 0x1234, u32::MAX] {
        for opcode in [Opcode::BEQ, Opcode::BNE, Opcode::BLT, Opcode::BGEU] {
            let mut predictor = BranchPredictor::default();
            assert!(predictor.predict(pc, opcode).0);
            predictor.update(pc, opcode, false, pc.wrapping_add(4));
            assert_eq!(predictor.predict(pc, opcode), (false, None));
        }
    }
}

#[test]
fn a_branch_predictor_remembers_calls() {
    let mut predictor = BranchPredictor::default();
    assert_eq!(predictor.predict(0x40, Opcode::JAL), (true, None));
    predictor.update(0x40, Opcode::JAL, true, 0x1000);
    assert_eq!(predictor.predict(0x40, Opcode::JAL), (true, Some(0x1000)));
    assert_eq!(predictor.predict(0x1010, Opcode::JALR), (true, Some(0x44)));
    predictor.update(0x1010, Opcode::JALR, true, 0x44);
    assert_eq!(predictor.predict(0x1010, Opcode::JALR), (true, None));
}

#[test]
fn the_first_right_guess_is_counted() {
    let mut predictor = BranchPredictor::default();
    predictor.update(0x40, Opcode::BNE, true, 0x80);
    assert_eq!(predictor.accuracy_counts(), (1, 0));
    predictor.predict(0x40, Opcode::BNE);
    assert_eq!(predictor.accuracy_counts(), (1, 1));
}

#[test]
fn an_idle_scheduler_issues_at_once() {
    let mut scheduler = InstructionScheduler::default();
    for i in 0..40u32 {
        let instruction = imm(Opcode::ADD, 1, 1, i);
        assert_eq!(scheduler.add_instruction(instruction), vec![instruction]);
        scheduler.complete_instruction(&instruction);
    }
    assert_eq!(scheduler.find_ready_instruction(), None);
}

#[test]
fn a_scheduler_waits_for_results() {
    let mut scheduler = InstructionScheduler::default();
    let first = imm(Opcode::ADD, 1, 0, 5);
    let second = imm(Opcode::ADD, 2, 1, 1);
    let third = imm(Opcode::ADD, 3, 0, 1);
    assert_eq!(scheduler.add_instruction(first), vec![first]);
    assert!(!scheduler.can_issue(&second));
    assert!(scheduler.can_issue(&third));
    assert_eq!(scheduler.add_instruction(second), vec![]);
    scheduler.complete_instruction(&first);
    assert_eq!(scheduler.find_ready_instruction(), Some((0, second)));
    assert_eq!(scheduler.add_instruction(third), vec![second, third]);
}

#[test]
fn a_scheduler_waits_for_another_writer_of_the_same_register() {
    let mut scheduler = InstructionScheduler::default();
    let first = Instruction::new(Opcode::ADD, 11, 1, 2, false, false);
    let second = Instruction::new(Opcode::ADD, 11, 11, 12, false, false);
    assert!(scheduler.can_issue(&second));
    assert_eq!(scheduler.add_instruction(first), vec![first]);
    assert!(!scheduler.can_issue(&second));
    assert_eq!(scheduler.add_instruction(second), vec![]);
    assert!(!scheduler.can_issue(&second));
    scheduler.complete_instruction(&first);
    assert!(scheduler.can_issue(&second));
    assert_eq!(scheduler.find_ready_instruction(), Some((0, second)));
}

#[test]
fn a_scheduler_issues_each_instruction_once() {
    let mut scheduler = InstructionScheduler::default();
    let writer = Instruction::new(Opcode::ADD, 3, 1, 2, false, false);
    let store = Instruction::new(Opcode::SW, 3, 0, 0x10, false, true);
    let load = Instruction::new(Opcode::LW, 4, 0, 0x10, false, true);
    let other = Instruction::new(Opcode::ADD, 5, 1, 2, false, false);
    let last = Instruction::new(Opcode::ADD, 6, 1, 2, false, false);
    assert_eq!(scheduler.add_instruction(writer), vec![writer]);
    assert_eq!(scheduler.add_instruction(store), vec![]);
    assert_eq!(scheduler.add_instruction(load), vec![]);
    assert_eq!(scheduler.add_instruction(other), vec![other]);
    scheduler.complete_instruction(&writer);
    assert_eq!(scheduler.add_instruction(last), vec![store, load, last]);
    assert_eq!(scheduler.find_ready_instruction(), None);
}

#[test]
fn a_scheduler_keeps_memory_in_order() {
    let mut scheduler = InstructionScheduler::default();
    for i in 0..4u32 {
        let instruction = imm(Opcode::ADD, 10 + i, 0, 1);
        assert_eq!(scheduler.add_instruction(instruction), vec![instruction]);
    }
    let write = imm(Opcode::SW, 1, 2, 0);
    let read = imm(Opcode::LW, 3, 2, 0);
    assert_eq!(scheduler.add_instruction(write), vec![]);
    assert!(scheduler.has_memory_hazard(&read));
    assert!(!scheduler.has_memory_hazard(&write));
    assert!(!scheduler.has_memory_hazard(&imm(Opcode::ADD, 1, 0, 1)));
    assert_eq!(scheduler.add_instruction(read), vec![]);
    scheduler.complete_instruction(&imm(Opcode::ADD, 10, 0, 1));
    let last = imm(Opcode::SLT, 4, 0, 1);
    assert_eq!(scheduler.add_instruction(last), vec![write]);
    scheduler.complete_instruction(&write);
    assert_eq!(scheduler.find_ready_instruction(), Some((0, read)));
}

#[test]
fn a_full_window_takes_nothing_in() {
    let mut scheduler = InstructionScheduler::default();
    for i in 0..20u32 {
        let issued = scheduler.add_instruction(imm(Opcode::ADD, 1 + i, 0, i));
        assert_eq!(issued.len(), if i < 4 { 1 } else { 0 });
    }
    let refused = imm(Opcode::ADD, 30, 0, 99);
    assert_eq!(scheduler.add_instruction(refused), vec![]);
    for i in 0..4u32 {
        scheduler.complete_instruction(&imm(Opcode::ADD, 1 + i, 0, i));
    }
    let mut issued = scheduler.add_instruction(refused);
    assert_eq!(issued.len(), 4);
    for _ in 0..10 {
        for instruction in &issued {
            scheduler.complete_instruction(instruction);
        }
        issued = scheduler.add_instruction(imm(Opcode::ADD, 31, 0, 1));
        assert!(!issued.contains(&refused));
    }
}

#[test]
fn operations_have_latencies() {
    let scheduler = InstructionScheduler::default();
    assert_eq!(scheduler.get_latency(Opcode::ADD), 1);
    assert_eq!(scheduler.get_latency(Opcode::MUL), 3);
    assert_eq!(scheduler.get_latency(Opcode::DIV), 10);
    assert_eq!(scheduler.get_latency(Opcode::REM), 10);
    assert_eq!(scheduler.get_latency(Opcode::LW), 1);
    assert_eq!(scheduler.get_latency(Opcode::DIVU), 1);
}

#[test]
fn registers_that_are_accessed_are_not_spilled() {
    let mut allocator = RegisterAllocator::default();
    for i in 0..1000u32 {
        for register in [Register::X1, Register::X2, Register::X3, Register::X30] {
            allocator.record_access(register, i % 7, i % 2 == 0);
            assert!(!allocator.should_spill(register));
        }
    }
}

#[test]
fn registers_are_spilled_when_many_are_live() {
    let mut allocator = RegisterAllocator::default();
    for number in 1..9u32 {
        allocator.record_access(Register::from_u32(number), 0x40, false);
    }
    allocator.consider_spill(Register::X1, 0x40);
    assert!(!allocator.should_spill(Register::X1));
    allocator.record_access(Register::X9, 0x40, false);
    allocator.consider_spill(Register::X1, 0x44);
    assert!(!allocator.should_spill(Register::X1));
    allocator.consider_spill(Register::X1, 0x40);
    assert!(allocator.should_spill(Register::X1));
    assert!(!allocator.should_spill(Register::X2));
    allocator.new_function(0x80);
    assert!(!allocator.should_spill(Register::X1));
}

#[test]
fn spilled_registers_live_in_memory() {
    let mut runtime = Executor::new(Program::new(vec![], 0, 0), Environment::empty());
    for number in 0..16u32 {
        runtime.rw(Register::from_u32(number), 100 + number);
    }
    runtime.state.register_allocator.consider_spill(Register::X3, 0);
    assert_eq!(runtime.rr(Register::X3, MemoryAccessPosition::B), 0);
    runtime.rw(Register::X3, 7);
    assert_eq!(runtime.rr(Register::X3, MemoryAccessPosition::B), 7);
    assert_eq!(runtime.word(0xFFFF_000C), 7);
    assert_eq!(runtime.register(Register::X3), 103);
    assert_eq!(runtime.rr(Register::X4, MemoryAccessPosition::B), 104);
}

#[test]
fn loops_are_noticed() {
    let mut tracker = LoopTracker::default();
    for i in 0..16u32 {
        assert!(tracker.get_loop_info(0x100).is_none());
        tracker.record_pc(0x100 + 4 * (i % 4));
    }
    let info = tracker.get_loop_info(0x100).unwrap();
    assert_eq!(info.start_pc, 0x100);
    assert_eq!(info.end_pc, 0x10c);
    assert_eq!(info.body_size, 4);
    assert_eq!(info.confidence, 3);
    assert_eq!(info.iteration_count, 3);
    assert!(info.vectorizable);
    assert_eq!(tracker.calculate_unroll_factor(info), 2);
    assert_eq!(tracker.get_stats().total_loops, 4);
    assert!(tracker.check_loop_pattern(4));
    assert!(!tracker.check_loop_pattern(5));
    assert!(tracker.plan(0x100) == LoopPlan::Vectorized);
    assert!(tracker.plan(0x200) == LoopPlan::Single);
    tracker.record_pc(0x10c);
    assert_eq!(tracker.get_stats().total_iterations, 1);
    tracker.end_loop();
    tracker.record_pc(0x10c);
    assert_eq!(tracker.get_stats().total_iterations, 1);
}

#[test]
fn a_tracker_predicts_the_words_of_a_region() {
    let mut tracker = MemoryAccessTracker::default();
    assert!(tracker.predict_next_access(0x100).is_empty());
    tracker.record_access(0x100);
    tracker.record_access(0x108);
    tracker.record_access(0x100);
    let predictions = tracker.predict_next_access(0x100);
    assert!(predictions.contains(&0x100));
    assert!(predictions.contains(&0x108));
    assert!(!predictions.contains(&0x2000));
    assert_eq!(tracker.get_stats().total_accesses, 3);
    assert_eq!(tracker.get_stats().temporal_hits, 1);
}

#[test]
fn a_word_once_accessed_stays_predicted_for_its_region() {
    let mut tracker = MemoryAccessTracker::default();
    tracker.record_access(0x1006);
    for i in 0..500u32 {
        tracker.record_access(0x9_0000 + i * 0x1000);
    }
    assert!(tracker.predict_next_access(0x103f).contains(&0x1004));
    assert!(!tracker.predict_next_access(0x1040).contains(&0x1004));
    tracker.record_access(0x1031);
    for i in 0..500u32 {
        tracker.record_access(0x9_0000 + i * 0x1000);
    }
    assert_eq!(tracker.predict_next_access(0x1020), vec![0x1004, 0x1030]);
}

#[test]
fn loops_are_known_as_they_have_been_seen() {
    let mut tracker = LoopTracker::default();
    for i in 0..200u32 {
        tracker.record_pc(0x100 + 4 * (i % 4));
    }
    for i in 0..300u32 {
        tracker.record_pc(0x200 + 4 * (i % 5));
    }
    assert_eq!(tracker.get_stats().total_loops, 9);
    for start in [0x100, 0x104, 0x108, 0x10c] {
        let info = tracker.get_loop_info(start).unwrap();
        assert_eq!((info.start_pc, info.body_size, info.unroll_factor), (start, 4, 2));
        assert_eq!(info.confidence, info.iteration_count as usize);
    }
    let info = tracker.get_loop_info(0x200).unwrap();
    assert_eq!((info.body_size, info.unroll_factor, info.vectorizable), (5, 1, true));
}

#[test]
fn a_loop_is_seen_at_most_once_for_each_program_counter() {
    let mut tracker = LoopTracker::default();
    for n in 1..200u32 {
        tracker.record_pc(0x40);
        assert_eq!(tracker.get_stats().total_loops, if n < 8 { 0 } else { 1 });
        match tracker.get_loop_info(0x40) {
            Some(info) => {
                assert_eq!(info.iteration_count, n - 7);
                assert_eq!(info.body_size, 4);
            }
            None => assert!(n < 10),
        }
    }
}

#[test]
fn no_register_is_spilled() {
    let mut allocator = RegisterAllocator::default();
    for round in 0..300u32 {
        for number in 0..32u32 {
            let register = Register::from_u32(number);
            allocator.record_access(register, round, round % 2 == 0);
            assert!(!allocator.should_spill(register));
        }
        if round % 120 == 119 {
            allocator.new_function(round);
        }
    }
}

#[test]
fn frequent_system_calls_get_hot() {
    let mut stats = SyscallStats::default();
    for i in 0..100u32 {
        assert!(!stats.is_hot_syscall(1));
        stats.record_syscall(if i < 9 { 2 } else { 1 });
    }
    assert!(stats.is_hot_syscall(1));
    assert!(!stats.is_hot_syscall(2));
    for _ in 0..99 {
        stats.record_syscall(2);
        assert!(!stats.is_hot_syscall(2));
    }
    stats.record_syscall(2);
    assert!(stats.is_hot_syscall(2));
    stats.update_hot_syscalls();
    assert!(stats.is_hot_syscall(1));
}

#[test]
fn a_tenth_of_all_calls_is_not_hot() {
    let mut stats = SyscallStats::default();
    for i in 0..100u32 {
        stats.record_syscall(if i < 90 { 1 } else { 2 });
    }
    assert!(stats.is_hot_syscall(1));
    assert!(!stats.is_hot_syscall(2));
    let mut stats = SyscallStats::default();
    for i in 0..100u32 {
        stats.record_syscall(if i < 89 { 1 } else { 2 });
    }
    assert!(stats.is_hot_syscall(2));
}

struct Numbered(u32);

impl Syscall for Numbered {
    fn execute(
        &self,
        _ctx: &mut SyscallContext,
        _state: &mut ExecutionState,
        _log: &mut RuntimeLog,
        _hooks: &HookRegistry,
        _arguments: SyscallArguments,
    ) -> Option<u32> {
        None
    }

    fn num_extra_cycles(&self) -> u32 {
        self.0
    }
}

#[test]
fn a_cache_of_system_calls_replaces_the_oldest() {
    let mut cache = SyscallCache::default();
    assert!(cache.lookup(0).is_none());
    for code in 0..65u32 {
        let implementation = Box::new(Numbered(code + 1));
        cache.insert(code, Arc::new(SyscallImpl { implementation }));
    }
    assert!(cache.lookup(0).is_none());
    assert_eq!(cache.lookup(1).unwrap().implementation.num_extra_cycles(), 2);
    assert_eq!(cache.lookup(64).unwrap().implementation.num_extra_cycles(), 65);
}

#[test]
fn pages_hold_records() {
    let mut page = MemoryPage::new();
    assert_eq!(page.get(0x1004), None);
    page.set(0x1004, record(5));
    assert_eq!(page.get(0x1004), Some(&record(5)));
    assert_eq!(page.get(0x1008), None);
    let copy = page.clone();
    page.set(0x1004, record(6));
    assert_eq!(copy.get(0x1004), Some(&record(5)));
}

#[test]
fn words_go_to_pages_that_are_in_use() {
    let mut state = ExecutionState::new(0);
    state.set_memory(0x1004, record(1));
    assert_eq!(state.memory.get(0x1004), Some(&record(1)));
    state.get_or_create_page(0x1ffc);
    assert_eq!(state.get_memory(0x1004), Some(&record(1)));
    state.set_memory(0x1004, record(2));
    assert_eq!(state.get_memory(0x1004), Some(&record(2)));
    assert_eq!(state.memory.get(0x1004), Some(&record(1)));
    state.set_memory(0x2004, record(3));
    assert_eq!(state.memory.get(0x2004), Some(&record(3)));
    let copy = state.clone();
    state.set_memory(0x1004, record(4));
    assert_eq!(copy.get_memory(0x1004), Some(&record(2)));
    assert_eq!(copy.get_memory(0x2004), Some(&record(3)));
}

#[test]
fn registers_are_hot_or_cold() {
    let mut state = ExecutionState::new(0);
    state.set_register(7, record(7));
    state.set_register(8, record(8));
    assert_eq!(state.hot_registers[7], record(7));
    assert_eq!(state.cold_registers[0], record(8));
    assert_eq!(state.get_register(7), &record(7));
    assert_eq!(state.get_register(8), &record(8));
    assert_eq!(state.get_register(31), &MemoryRecord::default());
    assert_eq!(state.register_access_count[8], 1);
}

#[test]
fn checkpoints_have_the_first_records() {
    let mut current = Table::new();
    current.insert(0, record(10));
    current.insert(4, record(11));
    current.insert(8, record(12));
    let mut touched = Table::new();
    touched.insert(0, Some(record(1)));
    touched.insert(4, None);
    touched.insert(12, Some(record(2)));
    let all = build_records(&current, &touched, true);
    assert_eq!(all.len(), 3);
    assert_eq!(all.get(0), Some(&record(1)));
    assert_eq!(all.get(8), Some(&record(12)));
    assert_eq!(all.get(12), Some(&record(2)));
    let some = build_records(&current, &touched, false);
    assert_eq!(some.len(), 2);
    assert_eq!(some.get(0), Some(&record(1)));
    assert_eq!(some.get(12), Some(&record(2)));
}

#[test]
fn checkpoints_have_the_old_initial_values() {
    let mut current = Table::new();
    current.insert(0, 1);
    current.insert(4, 2);
    current.insert(8, 3);
    let mut touched = Table::new();
    touched.insert(0, true);
    touched.insert(4, false);
    let all = build_initial_values(&current, &touched, true);
    assert_eq!(all.len(), 2);
    assert_eq!(all.get(0), Some(&1));
    assert_eq!(all.get(8), Some(&3));
    let some = build_initial_values(&current, &touched, false);
    assert_eq!(some.len(), 1);
    assert_eq!(some.get(0), Some(&1));
}

#[test]
fn register_operations_compute() {
    assert_eq!(alu(Opcode::ADD, u32::MAX, 2), 1);
    assert_eq!(alu(Opcode::SUB, 1, 2), u32::MAX);
    assert_eq!(alu(Opcode::SLL, 1, 33), 2);
    assert_eq!(alu(Opcode::SRA, 0x8000_0000, 31), u32::MAX);
    assert_eq!(alu(Opcode::SLT, u32::MAX, 0), 1);
    assert_eq!(alu(Opcode::SLTU, u32::MAX, 0), 0);
    assert_eq!(alu(Opcode::DIV, 0x8000_0000, u32::MAX), 0x8000_0000);
    assert_eq!(alu(Opcode::REM, 0x8000_0000, u32::MAX), 0);
    assert_eq!(alu(Opcode::DIVU, 7, 0), u32::MAX);
    assert_eq!(alu(Opcode::REMU, 7, 0), 7);
}

#[test]
fn loads_select_and_extend() {
    let word = 0x8180_7f01;
    assert_eq!(select_byte(word, 3), 0x81);
    assert_eq!(load(Opcode::LB, word, 0), Some(1));
    assert_eq!(load(Opcode::LB, word, 2), Some(0xffff_ff80));
    assert_eq!(load(Opcode::LBU, word, 2), Some(0x80));
    assert_eq!(load(Opcode::LH, word, 2), Some(0xffff_8180));
    assert_eq!(load(Opcode::LH, word, 0), Some(0x7f01));
    assert_eq!(load(Opcode::LHU, word, 2), Some(0x8180));
    assert_eq!(load(Opcode::LHU, word, 1), None);
    assert_eq!(load(Opcode::LW, word, 4), Some(word));
    assert_eq!(load(Opcode::LW, word, 2), None);
}

#[test]
fn stores_replace_their_part() {
    let word = 0x1122_3344;
    assert_eq!(store(Opcode::SB, word, 0xaabb_ccdd, 0), Some(0x1122_33dd));
    assert_eq!(store(Opcode::SB, word, 0xaabb_ccdd, 3), Some(0xdd22_3344));
    assert_eq!(store(Opcode::SH, word, 0xaabb_ccdd, 2), Some(0xccdd_3344));
    assert_eq!(store(Opcode::SH, word, 0xaabb_ccdd, 3), None);
    assert_eq!(store(Opcode::SW, word, 0xaabb_ccdd, 0), Some(0xaabb_ccdd));
    assert_eq!(store(Opcode::SW, word, 0xaabb_ccdd, 1), None);
}

#[test]
fn programs_end_outside_their_words() {
    let program = Program::new(vec![Instruction::default(); 3], 0x1000, 0x1000);
    assert!(program.is_end(0));
    assert!(program.is_end(0xffc));
    assert!(!program.is_end(0x1000));
    assert!(!program.is_end(0x1008));
    assert!(program.is_end(0x100c));
}
