//! What the instructions of the machine do.
//!
//! The functions of this module say, for each instruction, how the machine changes and what comes
//! out. They are the contracts of the executor.
use vstd::prelude::*;

#[allow(unused_imports)]
use crate::alu::{alu_result, signed};
#[allow(unused_imports)]
use crate::error::ExecutionError;
#[allow(unused_imports)]
use crate::events::{MemoryAccessPosition, MemoryRecord};
#[allow(unused_imports)]
use crate::isa::{InstructionView, Opcode, Register};
#[allow(unused_imports)]
use crate::lanes::{aligned_for, loaded, stored};
#[allow(unused_imports)]
use crate::memory::MachineView;
#[allow(unused_imports)]
use crate::state::StateView;

verus! {

/// The address of the word that an address lies in.
pub open spec fn word_address(addr: u32) -> u32 {
    (addr - addr % 4) as u32
}

/// The address of the word that a spilled register lives in: above all others, one for each
/// register.
pub open spec fn spill_address(register: Register) -> u32 {
    (0xFFFF_0000 + (register as int) * 4) as u32
}

/// A conditional branch is taken.
pub open spec fn branch_taken(opcode: Opcode, a: u32, b: u32) -> bool {
    match opcode {
        Opcode::BEQ => a == b,
        Opcode::BNE => a != b,
        Opcode::BLT => signed(a) < signed(b),
        Opcode::BGE => signed(a) >= signed(b),
        Opcode::BLTU => a < b,
        _ => a >= b,
    }
}

impl StateView {
    /// The time of an access within the current instruction.
    pub open spec fn time(self, position: MemoryAccessPosition) -> u32 {
        self.clk.wrapping_add(position as u32)
    }

    /// The state after the allocator has been told of an access to a register.
    pub open spec fn register_used(self, register: Register) -> StateView {
        StateView { allocator: self.allocator.recorded(register, self.pc), ..self }
    }

    /// The value that an instruction reads from a register: that of its own place or, where the
    /// register is spilled, that of its word of memory.
    pub open spec fn register_value(self, register: Register) -> u32 {
        if self.register_used(register).allocator.spilled(register) {
            match self.record_at(spill_address(register)) {
                Some(record) => record.value,
                None => 0,
            }
        } else {
            self.registers[register as int].value
        }
    }

    /// The state after an instruction has written a register. Register zero stays zero.
    pub open spec fn register_written(self, register: Register, value: u32) -> StateView {
        let used = self.register_used(register);
        let record = MemoryRecord {
            value: if register == Register::X0 {
                0
            } else {
                value
            },
            shard: self.current_shard,
            timestamp: self.time(MemoryAccessPosition::A),
        };
        if used.allocator.spilled(register) {
            used.written(spill_address(register), record)
        } else {
            used.register_set(register as int, record)
        }
    }

    /// The state after an instruction has been executed: the clock is four steps on and the next
    /// instruction is at `next_pc`.
    pub open spec fn advanced(self, next_pc: u32) -> StateView {
        StateView { pc: next_pc, clk: self.clk.wrapping_add(4), ..self }
    }

    /// The state after the branch predictor has been asked about the current instruction.
    pub open spec fn predicted(self) -> StateView {
        StateView { branch: self.branch.asked(), ..self }
    }

    /// The state after the branch predictor has been told what the current instruction did.
    pub open spec fn learned(self, opcode: Opcode, taken: bool, target: u32) -> StateView {
        StateView { branch: self.branch.told(self.pc, opcode, taken, target), ..self }
    }

    /// The operands of a register operation, and the state after they have been fetched.
    pub open spec fn alu_operands(self, instruction: InstructionView) -> (StateView, u32, u32) {
        if !instruction.imm_c {
            let rs1 = Register::from_u32(instruction.op_b);
            let rs2 = Register::from_u32(instruction.op_c);
            let c = self.register_value(rs2);
            let state = self.register_used(rs2);
            (state.register_used(rs1), state.register_value(rs1), c)
        } else if !instruction.imm_b {
            let rs1 = Register::from_u32(instruction.op_b);
            (self.register_used(rs1), self.register_value(rs1), instruction.op_c)
        } else {
            (self, instruction.op_b, instruction.op_c)
        }
    }

    /// The values of the two source registers of a store or a branch, and the state after they
    /// have been fetched.
    pub open spec fn source_values(self, instruction: InstructionView) -> (StateView, u32, u32) {
        let rs1 = Register::from_u32(instruction.op_a);
        let rs2 = Register::from_u32(instruction.op_b);
        let b = self.register_value(rs2);
        let state = self.register_used(rs2);
        (state.register_used(rs1), state.register_value(rs1), b)
    }
}

impl MachineView {
    /// The machine with another state.
    pub open spec fn with(self, state: StateView) -> MachineView {
        MachineView { state, ..self }
    }

    /// The address that a load accesses, the word read there, and the machine afterwards.
    #[verifier::opaque]
    pub open spec fn load_operands(self, instruction: InstructionView) -> (MachineView, u32, u32) {
        let rs1 = Register::from_u32(instruction.op_b);
        let addr = self.state.register_value(rs1).wrapping_add(instruction.op_c);
        let machine = self.with(self.state.register_used(rs1));
        let shard = machine.state.current_shard;
        let time = machine.state.time(MemoryAccessPosition::Memory);
        (
            machine.read(word_address(addr), shard, time, true),
            addr,
            machine.read_record(word_address(addr), shard, time).value,
        )
    }

    /// The value that a store stores, the address, the word that was there, and the machine
    /// afterwards.
    #[verifier::opaque]
    pub open spec fn store_operands(self, instruction: InstructionView) -> (
        MachineView,
        u32,
        u32,
        u32,
    ) {
        let (state, a, b) = self.state.source_values(instruction);
        let addr = b.wrapping_add(instruction.op_c);
        let machine = self.with(state);
        (machine.looked_at(word_address(addr)), a, addr, machine.word(word_address(addr)))
    }

    /// The machine after a register operation.
    pub open spec fn after_alu(self, instruction: InstructionView) -> MachineView {
        let (state, b, c) = self.state.alu_operands(instruction);
        let a = alu_result(instruction.opcode, b, c);
        self.with(state.register_written(Register::from_u32(instruction.op_a), a))
    }

    /// The machine after a load, and what comes out: an error where the address is not aligned.
    pub open spec fn after_load(self, instruction: InstructionView) -> (MachineView, Result<
        (),
        ExecutionError,
    >) {
        let (after, addr, word) = self.load_operands(instruction);
        if aligned_for(instruction.opcode, addr) {
            let a = loaded(instruction.opcode, word, addr);
            let rd = Register::from_u32(instruction.op_a);
            (after.with(after.state.register_written(rd, a)), Ok(()))
        } else {
            (after, Err(ExecutionError::InvalidMemoryAccess(instruction.opcode, addr)))
        }
    }

    /// The machine after a store, and what comes out: an error where the address is not aligned.
    pub open spec fn after_store(self, instruction: InstructionView) -> (MachineView, Result<
        (),
        ExecutionError,
    >) {
        let (after, a, addr, word) = self.store_operands(instruction);
        if aligned_for(instruction.opcode, addr) {
            let shard = after.state.current_shard;
            let time = after.state.time(MemoryAccessPosition::Memory);
            let new_word = stored(instruction.opcode, word, a, addr);
            (after.wrote(word_address(addr), new_word, shard, time, true), Ok(()))
        } else {
            (after, Err(ExecutionError::InvalidMemoryAccess(instruction.opcode, addr)))
        }
    }

    /// The machine after a conditional branch, and the address of the next instruction: the target
    /// where the branch is taken, the next word where it is not.
    pub open spec fn after_branch(self, instruction: InstructionView) -> (MachineView, u32) {
        let (state, a, b) = self.state.source_values(instruction);
        let taken = branch_taken(instruction.opcode, a, b);
        let target = if taken {
            self.state.pc.wrapping_add(instruction.op_c)
        } else {
            self.state.pc.wrapping_add(4)
        };
        (self.with(state.learned(instruction.opcode, taken, target)), target)
    }

    /// The machine after a jump to a distance, and the address of the next instruction.
    pub open spec fn after_jal(self, instruction: InstructionView) -> (MachineView, u32) {
        let rd = Register::from_u32(instruction.op_a);
        let target = self.state.pc.wrapping_add(instruction.op_b);
        let state = self.state.register_written(rd, self.state.pc.wrapping_add(4));
        (self.with(state.learned(instruction.opcode, true, target)), target)
    }

    /// The machine after a jump to a register, and the address of the next instruction.
    pub open spec fn after_jalr(self, instruction: InstructionView) -> (MachineView, u32) {
        let rd = Register::from_u32(instruction.op_a);
        let rs1 = Register::from_u32(instruction.op_b);
        let target = self.state.register_value(rs1).wrapping_add(instruction.op_c);
        let state = self.state.register_used(rs1).register_written(
            rd,
            self.state.pc.wrapping_add(4),
        );
        (self.with(state.learned(instruction.opcode, true, target)), target)
    }

    /// The machine after an address relative to the program counter has been built.
    pub open spec fn after_auipc(self, instruction: InstructionView) -> MachineView {
        let rd = Register::from_u32(instruction.op_a);
        let a = self.state.pc.wrapping_add(instruction.op_b);
        self.with(self.state.register_written(rd, a))
    }

    /// The machine after it has gone on to the next instruction.
    pub open spec fn advanced(self, next_pc: u32) -> MachineView {
        self.with(self.state.advanced(next_pc))
    }

    /// The machine after it has gone on to the next instruction, unless there was an error.
    pub open spec fn unless_failed(
        executed: (MachineView, Result<(), ExecutionError>),
        next_pc: u32,
    ) -> (MachineView, Result<(), ExecutionError>) {
        if executed.1 is Ok {
            (executed.0.advanced(next_pc), executed.1)
        } else {
            executed
        }
    }

    /// The machine after an instruction that is no system call, and what comes out: nothing or an
    /// error. An instruction that fails leaves the program counter and the clock where they were.
    pub open spec fn executed(self, instruction: InstructionView) -> (MachineView, Result<
        (),
        ExecutionError,
    >) {
        let opcode = instruction.opcode;
        let machine = self.with(self.state.predicted());
        let next_pc = self.state.pc.wrapping_add(4);
        if opcode.is_alu() {
            (machine.after_alu(instruction).advanced(next_pc), Ok(()))
        } else if opcode.is_load() {
            MachineView::unless_failed(machine.after_load(instruction), next_pc)
        } else if opcode.is_store() {
            MachineView::unless_failed(machine.after_store(instruction), next_pc)
        } else if opcode.is_branch() {
            let (after, target) = machine.after_branch(instruction);
            (after.advanced(target), Ok(()))
        } else if opcode == Opcode::JAL {
            let (after, target) = machine.after_jal(instruction);
            (after.advanced(target), Ok(()))
        } else if opcode == Opcode::JALR {
            let (after, target) = machine.after_jalr(instruction);
            (after.advanced(target), Ok(()))
        } else if opcode == Opcode::AUIPC {
            (machine.after_auipc(instruction).advanced(next_pc), Ok(()))
        } else if opcode == Opcode::EBREAK {
            (machine, Err(ExecutionError::Breakpoint()))
        } else {
            (machine, Err(ExecutionError::Unimplemented()))
        }
    }
}

} // verus!
