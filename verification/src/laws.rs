//! Laws of the machine: what instructions do to registers and memory, what every instruction
//! keeps, and what follows for whole runs.
use vstd::prelude::*;

#[allow(unused_imports)]
use crate::access::{region_of, SPATIAL_REGION_SIZE};
#[allow(unused_imports)]
use crate::alu::{alu_result, law_division, law_product, signed, size_of, word_count};
#[allow(unused_imports)]
use crate::error::ExecutionError;
#[allow(unused_imports)]
use crate::events::{MemoryAccessPosition, MemoryRecord};
#[allow(unused_imports)]
use crate::isa::{InstructionView, Opcode, Register};
#[allow(unused_imports)]
use crate::lanes::{
    aligned_for, law_store_byte, law_store_half, law_store_word, loaded, stored,
};
#[allow(unused_imports)]
use crate::machine::{branch_taken, spill_address, word_address};
#[allow(unused_imports)]
use crate::memory::MachineView;
#[allow(unused_imports)]
use crate::regalloc::NUM_REGISTERS;
#[allow(unused_imports)]
use crate::state::StateView;

verus! {

/// How often a register operation accesses a register.
pub open spec fn alu_accesses(instruction: InstructionView, register: int) -> int {
    let a = if instruction.op_a == register {
        1int
    } else {
        0
    };
    let b = if instruction.op_b == register && !(instruction.imm_b && instruction.imm_c) {
        1int
    } else {
        0
    };
    let c = if instruction.op_c == register && !instruction.imm_c {
        1int
    } else {
        0
    };
    a + b + c
}

impl StateView {
    /// Every register lives in its own place, register zero holds zero, and no register can be
    /// accessed so often in the next `room` accesses that its counter overflows.
    pub open spec fn regular(self, room: int) -> bool {
        &&& self.registers.len() == NUM_REGISTERS
        &&& self.registers[0].value == 0
        &&& self.allocator.unspilled()
        &&& forall|i: int|
            0 <= i < NUM_REGISTERS ==> #[trigger] self.allocator.access_counts[i] + room
                <= u32::MAX
    }

    /// Every register lives in its own place, register zero holds zero, and the counters of the
    /// registers that a register operation accesses have room for just these accesses.
    pub open spec fn fits(self, instruction: InstructionView) -> bool {
        &&& self.registers.len() == NUM_REGISTERS
        &&& self.registers[0].value == 0
        &&& self.allocator.unspilled()
        &&& forall|i: int|
            0 <= i < NUM_REGISTERS ==> #[trigger] self.allocator.access_counts[i]
                + alu_accesses(instruction, i) <= u32::MAX
    }

    /// The value in the place of a register.
    pub open spec fn value_of(self, register: u32) -> u32 {
        self.registers[register as int].value
    }

    /// The first operand of a register operation.
    pub open spec fn operand_b(self, instruction: InstructionView) -> u32 {
        if instruction.imm_b && instruction.imm_c {
            instruction.op_b
        } else {
            self.value_of(instruction.op_b)
        }
    }

    /// The second operand of a register operation.
    pub open spec fn operand_c(self, instruction: InstructionView) -> u32 {
        if instruction.imm_c {
            instruction.op_c
        } else {
            self.value_of(instruction.op_c)
        }
    }

    /// The values of all registers are those of another state, but for one that holds `value`.
    /// Register zero holds zero all the same.
    pub open spec fn registers_but(self, other: StateView, register: u32, value: u32) -> bool {
        forall|i: u32|
            i < NUM_REGISTERS ==> #[trigger] self.value_of(i) == if i == register && i != 0 {
                value
            } else {
                other.value_of(i)
            }
    }

    /// The values of all registers are those of another state.
    pub open spec fn registers_as(self, other: StateView) -> bool {
        forall|i: u32| i < NUM_REGISTERS ==> #[trigger] self.value_of(i) == other.value_of(i)
    }

    /// All words are those of another state.
    pub open spec fn words_as(self, other: StateView) -> bool {
        forall|addr: u32| #[trigger] self.record_at(addr) == other.record_at(addr)
    }

    /// The current value of a word; zero where there is none.
    pub open spec fn word_at(self, addr: u32) -> u32 {
        match self.record_at(addr) {
            Some(record) => record.value,
            None => 0,
        }
    }

    pub(crate) proof fn lemma_used(self, register: Register, room: int)
        requires
            self.regular(room),
            room >= 1,
        ensures
            self.register_used(register).regular(room - 1),
            self.register_value(register) == self.value_of(register as u32),
    {
        self.allocator.law_unspilled(register, self.pc, 0);
        let after = self.allocator.recorded(register, self.pc);
        after.law_unspilled(register, self.pc, 0);
    }

    pub(crate) proof fn lemma_access(self, register: Register)
        requires
            self.registers.len() == NUM_REGISTERS,
            self.allocator.unspilled(),
            self.allocator.access_counts[register as int] < u32::MAX,
        ensures
            self.register_used(register).allocator.unspilled(),
            !self.register_used(register).allocator.spilled(register),
            self.register_value(register) == self.value_of(register as u32),
            forall|i: int|
                0 <= i < NUM_REGISTERS ==> #[trigger] self.register_used(
                    register,
                ).allocator.access_counts[i] == self.allocator.access_counts[i] + if i
                    == register as int {
                    1int
                } else {
                    0
                },
    {
        self.allocator.law_unspilled(register, self.pc, 0);
        let after = self.allocator.recorded(register, self.pc);
        after.law_unspilled(register, self.pc, 0);
        assert forall|i: int| 0 <= i < NUM_REGISTERS implies #[trigger] after.access_counts[i]
            == self.allocator.access_counts[i] + if i == register as int {
            1int
        } else {
            0
        } by {
            self.allocator.law_access(register, self.pc, i);
        }
    }

    pub(crate) proof fn lemma_written(self, register: Register, value: u32, room: int)
        requires
            self.regular(room),
            room >= 1,
        ensures
            self.register_written(register, value).regular(room - 1),
            self.register_written(register, value) == (StateView {
                registers: self.register_written(register, value).registers,
                ..self.register_used(register)
            }),
            forall|i: int|
                0 <= i < NUM_REGISTERS ==> #[trigger] self.register_written(
                    register,
                    value,
                ).registers[i].value == if i == register as int && i != 0 {
                    value
                } else {
                    self.registers[i].value
                },
    {
        self.lemma_used(register, room);
        let used = self.register_used(register);
        used.allocator.law_unspilled(register, self.pc, 0);
        assert(register as int == 0 <==> register == Register::X0);
    }
}

impl MachineView {
    pub(crate) proof fn lemma_operands(self, instruction: InstructionView)
        requires
            instruction.opcode.is_alu(),
            instruction.decodable(),
            self.state.fits(instruction),
        ensures
            ({
                let (fetched, b, c) = self.state.alu_operands(instruction);
                &&& fetched == (StateView { allocator: fetched.allocator, ..self.state })
                &&& fetched.allocator.unspilled()
                &&& fetched.allocator.access_counts[instruction.op_a as int] < u32::MAX
                &&& b == self.state.operand_b(instruction)
                &&& c == self.state.operand_c(instruction)
            }),
    {
        assert(self.state.allocator.access_counts[instruction.op_a as int] + alu_accesses(
            instruction,
            instruction.op_a as int,
        ) <= u32::MAX);
        if !instruction.imm_c {
            let rs1 = Register::from_u32(instruction.op_b);
            let rs2 = Register::from_u32(instruction.op_c);
            Register::lemma_number(instruction.op_b);
            Register::lemma_number(instruction.op_c);
            assert(self.state.allocator.access_counts[instruction.op_b as int] + alu_accesses(
                instruction,
                instruction.op_b as int,
            ) <= u32::MAX);
            assert(self.state.allocator.access_counts[instruction.op_c as int] + alu_accesses(
                instruction,
                instruction.op_c as int,
            ) <= u32::MAX);
            self.state.lemma_access(rs2);
            self.state.register_used(rs2).lemma_access(rs1);
        } else if !instruction.imm_b {
            Register::lemma_number(instruction.op_b);
            assert(self.state.allocator.access_counts[instruction.op_b as int] + alu_accesses(
                instruction,
                instruction.op_b as int,
            ) <= u32::MAX);
            self.state.lemma_access(Register::from_u32(instruction.op_b));
        }
    }

    /// A register operation writes its result to its destination and goes on to the next word. It
    /// changes no other register and no word of memory, and it leaves no trace in the log.
    pub proof fn law_alu(self, instruction: InstructionView)
        requires
            instruction.opcode.is_alu(),
            instruction.decodable(),
            self.state.fits(instruction),
        ensures
            ({
                let (after, outcome) = self.executed(instruction);
                &&& outcome is Ok
                &&& after.state.pc == self.state.pc.wrapping_add(4)
                &&& after.state.clk == self.state.clk.wrapping_add(4)
                &&& after.state.registers_but(
                    self.state,
                    instruction.op_a,
                    alu_result(
                        instruction.opcode,
                        self.state.operand_b(instruction),
                        self.state.operand_c(instruction),
                    ),
                )
                &&& after.state.words_as(self.state)
                &&& after.log == self.log
            }),
    {
        let machine = self.with(self.state.predicted());
        machine.lemma_operands(instruction);
        let (fetched, b, c) = machine.state.alu_operands(instruction);
        let rd = Register::from_u32(instruction.op_a);
        Register::lemma_number(instruction.op_a);
        fetched.lemma_access(rd);
        assert(rd as int == 0 <==> rd == Register::X0);
    }

    /// A load writes what it reads to its destination and goes on to the next word. It changes no
    /// other register and no value in memory: only the time of the word that it reads. Where the
    /// address is not aligned, it fails and changes no register.
    pub proof fn law_load(self, instruction: InstructionView)
        requires
            instruction.opcode.is_load(),
            instruction.decodable(),
            self.state.regular(2),
            self.sound(),
        ensures
            ({
                let (after, outcome) = self.executed(instruction);
                let addr = self.state.value_of(instruction.op_b).wrapping_add(instruction.op_c);
                let word = self.state.effective_record(word_address(addr)).value;
                &&& forall|other: u32|
                    other != word_address(addr) ==> #[trigger] after.state.record_at(other)
                        == self.state.record_at(other)
                &&& after.state.record_at(word_address(addr)) == Some(
                    MemoryRecord {
                        value: word,
                        shard: self.state.current_shard,
                        timestamp: self.state.time(MemoryAccessPosition::Memory),
                    },
                )
                &&& if aligned_for(instruction.opcode, addr) {
                    &&& outcome is Ok
                    &&& after.state.pc == self.state.pc.wrapping_add(4)
                    &&& after.state.clk == self.state.clk.wrapping_add(4)
                    &&& after.state.registers_but(
                        self.state,
                        instruction.op_a,
                        loaded(instruction.opcode, word, addr),
                    )
                } else {
                    &&& outcome == Err::<(), ExecutionError>(
                        ExecutionError::InvalidMemoryAccess(instruction.opcode, addr),
                    )
                    &&& after.state.pc == self.state.pc
                    &&& after.state.registers_as(self.state)
                }
            }),
    {
        let machine = self.with(self.state.predicted());
        assert(machine.sound());
        let rd = Register::from_u32(instruction.op_a);
        Register::lemma_number(instruction.op_a);
        machine.lemma_load(instruction, 2);
        let (read, addr, word) = machine.load_operands(instruction);
        if aligned_for(instruction.opcode, addr) {
            let a = loaded(instruction.opcode, word, addr);
            read.state.lemma_written(rd, a, 1);
        }
        let (after, outcome) = self.executed(instruction);
        assert(after.state.words_as(read.state));
    }

    pub(crate) proof fn lemma_load(self, instruction: InstructionView, room: int)
        requires
            instruction.opcode.is_load(),
            instruction.decodable(),
            self.state.regular(room),
            room >= 1,
            self.sound(),
        ensures
            ({
                let (read, addr, word) = self.load_operands(instruction);
                &&& addr == self.state.value_of(instruction.op_b).wrapping_add(instruction.op_c)
                &&& word == self.state.effective_record(word_address(addr)).value
                &&& forall|other: u32| #[trigger] read.state.record_at(other) == if other
                    == word_address(addr) {
                    Some(
                        MemoryRecord {
                            value: word,
                            shard: self.state.current_shard,
                            timestamp: self.state.time(MemoryAccessPosition::Memory),
                        },
                    )
                } else {
                    self.state.record_at(other)
                }
                &&& read.state.regular(room - 1)
                &&& read.state.registers == self.state.registers
                &&& read.state.pc == self.state.pc
                &&& read.state.clk == self.state.clk
                &&& read.sound()
            }),
    {
        reveal(MachineView::load_operands);
        let rs1 = Register::from_u32(instruction.op_b);
        Register::lemma_number(instruction.op_b);
        self.state.lemma_used(rs1, room);
        let fetched = self.with(self.state.register_used(rs1));
        assert(fetched.sound());
        let (read, addr, word) = self.load_operands(instruction);
        let shard = fetched.state.current_shard;
        let time = fetched.state.time(MemoryAccessPosition::Memory);
        assert forall|other: u32| #[trigger] read.state.record_at(other) == if other
            == word_address(addr) {
            Some(MemoryRecord { value: word, shard, timestamp: time })
        } else {
            self.state.record_at(other)
        } by {
            fetched.law_read(word_address(addr), shard, time, true, other);
        }
        fetched.law_read(word_address(addr), shard, time, true, word_address(addr));
        fetched.lemma_read_regular(word_address(addr), shard, time, room - 1);
    }

    proof fn lemma_read_regular(self, addr: u32, shard: u32, timestamp: u32, room: int)
        requires
            self.state.regular(room),
        ensures
            self.read(addr, shard, timestamp, true).state.regular(room),
            self.read(addr, shard, timestamp, true).state.registers == self.state.registers,
            self.read(addr, shard, timestamp, true).state.pc == self.state.pc,
            self.read(addr, shard, timestamp, true).state.clk == self.state.clk,
    {
    }
}

impl StateView {
    proof fn lemma_all_prefetched_frame(self, addrs: Seq<u32>, count: nat)
        ensures
            self.all_prefetched(addrs, count) == (StateView {
                prefetch: self.all_prefetched(addrs, count).prefetch,
                ..self
            }),
        decreases count,
    {
        if count > 0 {
            self.lemma_all_prefetched_frame(addrs, (count - 1) as nat);
        }
    }

    proof fn lemma_line_prefetched_frame(self, line: u32, count: nat)
        ensures
            self.line_prefetched(line, count) == (StateView {
                prefetch: self.line_prefetched(line, count).prefetch,
                ..self
            }),
        decreases count,
    {
        if count > 0 {
            self.lemma_line_prefetched_frame(line, (count - 1) as nat);
        }
    }
}

impl MachineView {
    /// A look at a word changes nothing but the prefetch buffer and what is known of accesses.
    pub(crate) proof fn lemma_look_frame(self, addr: u32)
        ensures
            self.looked_at(addr).state == (StateView {
                prefetch: self.looked_at(addr).state.prefetch,
                accesses: self.looked_at(addr).state.accesses,
                ..self.state
            }),
    {
        let noted = StateView { accesses: self.state.accesses.recorded(addr), ..self.state };
        let line = region_of(addr).wrapping_add(SPATIAL_REGION_SIZE);
        match self.state.record_at(addr) {
            Some(record) => {
                let predictions = noted.accesses.predictions(addr);
                let buffered = noted.buffered(addr, record);
                buffered.lemma_all_prefetched_frame(predictions, predictions.len());
                buffered.all_prefetched(predictions, predictions.len()).lemma_line_prefetched_frame(
                    line,
                    16,
                );
            },
            None => {
                noted.lemma_line_prefetched_frame(line, 16);
            },
        }
    }

    pub(crate) proof fn lemma_store(self, instruction: InstructionView, room: int)
        requires
            instruction.opcode.is_store(),
            instruction.decodable(),
            self.state.regular(room),
            room >= 2,
            self.sound(),
        ensures
            ({
                let (looked, a, addr, word) = self.store_operands(instruction);
                &&& a == self.state.value_of(instruction.op_a)
                &&& addr == self.state.value_of(instruction.op_b).wrapping_add(instruction.op_c)
                &&& word == self.state.word_at(word_address(addr))
                &&& looked.state.words_as(self.state)
                &&& looked.state.regular(room - 2)
                &&& looked.state.registers == self.state.registers
                &&& looked.state.pc == self.state.pc
                &&& looked.state.clk == self.state.clk
                &&& looked.state.current_shard == self.state.current_shard
                &&& looked.sound()
            }),
    {
        reveal(MachineView::store_operands);
        let rs1 = Register::from_u32(instruction.op_a);
        let rs2 = Register::from_u32(instruction.op_b);
        Register::lemma_number(instruction.op_a);
        Register::lemma_number(instruction.op_b);
        self.state.lemma_used(rs2, room);
        self.state.register_used(rs2).lemma_used(rs1, room - 1);
        let fetched = self.with(self.state.source_values(instruction).0);
        assert(fetched.sound());
        let (looked, a, addr, word) = self.store_operands(instruction);
        assert forall|other: u32| #[trigger] looked.state.record_at(other)
            == self.state.record_at(other) by {
            fetched.law_look(word_address(addr), other);
        }
        fetched.law_look(word_address(addr), word_address(addr));
        fetched.lemma_look_frame(word_address(addr));
    }

    pub(crate) proof fn lemma_write_regular(self, addr: u32, value: u32, shard: u32, time: u32, room: int)
        requires
            self.state.regular(room),
        ensures
            self.wrote(addr, value, shard, time, true).state.regular(room),
            self.wrote(addr, value, shard, time, true).state.registers == self.state.registers,
            self.wrote(addr, value, shard, time, true).state.pc == self.state.pc,
            self.wrote(addr, value, shard, time, true).state.clk == self.state.clk,
    {
    }

    /// A store changes the part of a word that it stores to and goes on to the next word. It
    /// changes no other word and no register. Where the address is not aligned, it fails and
    /// changes no word and no register.
    pub proof fn law_store(self, instruction: InstructionView)
        requires
            instruction.opcode.is_store(),
            instruction.decodable(),
            self.state.regular(2),
            self.sound(),
        ensures
            ({
                let (after, outcome) = self.executed(instruction);
                let addr = self.state.value_of(instruction.op_b).wrapping_add(instruction.op_c);
                let word = self.state.word_at(word_address(addr));
                &&& after.state.registers_as(self.state)
                &&& if aligned_for(instruction.opcode, addr) {
                    &&& outcome is Ok
                    &&& after.state.pc == self.state.pc.wrapping_add(4)
                    &&& after.state.clk == self.state.clk.wrapping_add(4)
                    &&& forall|other: u32|
                        other != word_address(addr) ==> #[trigger] after.state.record_at(other)
                            == self.state.record_at(other)
                    &&& after.state.record_at(word_address(addr)) == Some(
                        MemoryRecord {
                            value: stored(
                                instruction.opcode,
                                word,
                                self.state.value_of(instruction.op_a),
                                addr,
                            ),
                            shard: self.state.current_shard,
                            timestamp: self.state.time(MemoryAccessPosition::Memory),
                        },
                    )
                } else {
                    &&& outcome == Err::<(), ExecutionError>(
                        ExecutionError::InvalidMemoryAccess(instruction.opcode, addr),
                    )
                    &&& after.state.pc == self.state.pc
                    &&& after.state.words_as(self.state)
                }
            }),
    {
        let machine = self.with(self.state.predicted());
        assert(machine.sound());
        machine.lemma_store(instruction, 2);
        let (looked, a, addr, word) = machine.store_operands(instruction);
        let (after, outcome) = self.executed(instruction);
        if aligned_for(instruction.opcode, addr) {
            let shard = looked.state.current_shard;
            let time = looked.state.time(MemoryAccessPosition::Memory);
            let value = stored(instruction.opcode, word, a, addr);
            looked.lemma_wrote(word_address(addr), value, shard, time);
            looked.lemma_write_regular(word_address(addr), value, shard, time, 0);
            let wrote = looked.wrote(word_address(addr), value, shard, time, true);
            assert(after.state.words_as(wrote.state));
        } else {
            assert(after.state.words_as(looked.state));
        }
    }

    pub(crate) proof fn lemma_failed_load(self, instruction: InstructionView)
        requires
            instruction.opcode.is_load(),
            instruction.decodable(),
            self.state.regular(2),
            self.sound(),
        ensures
            self.executed(instruction).1 is Err ==> self.executed(instruction).0.state.clk
                == self.state.clk,
    {
        let machine = self.with(self.state.predicted());
        assert(machine.sound());
        machine.lemma_load(instruction, 2);
    }

    pub(crate) proof fn lemma_failed_store(self, instruction: InstructionView)
        requires
            instruction.opcode.is_store(),
            instruction.decodable(),
            self.state.regular(2),
            self.sound(),
        ensures
            self.executed(instruction).1 is Err ==> self.executed(instruction).0.state.clk
                == self.state.clk,
    {
        let machine = self.with(self.state.predicted());
        assert(machine.sound());
        machine.lemma_store(instruction, 2);
    }

    pub(crate) proof fn lemma_wrote(self, addr: u32, value: u32, shard: u32, time: u32)
        requires
            self.sound(),
        ensures
            self.wrote(addr, value, shard, time, true).sound(),
            forall|other: u32| #[trigger]
                self.wrote(addr, value, shard, time, true).state.record_at(other) == if other
                    == addr {
                    Some(MemoryRecord { value, shard, timestamp: time })
                } else {
                    self.state.record_at(other)
                },
    {
        assert forall|other: u32| #[trigger]
            self.wrote(addr, value, shard, time, true).state.record_at(other) == if other == addr {
                Some(MemoryRecord { value, shard, timestamp: time })
            } else {
                self.state.record_at(other)
            } by {
            self.law_write(addr, value, shard, time, true, other);
        }
        self.law_write(addr, value, shard, time, true, addr);
    }
}

impl MachineView {
    /// A conditional branch that is taken goes to its target; one that is not taken goes on to the
    /// next word, whatever was predicted. It changes no register, no word and no log.
    pub proof fn law_branch(self, instruction: InstructionView)
        requires
            instruction.opcode.is_branch(),
            instruction.decodable(),
            self.state.regular(2),
        ensures
            ({
                let (after, outcome) = self.executed(instruction);
                let taken = branch_taken(
                    instruction.opcode,
                    self.state.value_of(instruction.op_a),
                    self.state.value_of(instruction.op_b),
                );
                &&& outcome is Ok
                &&& after.state.pc == if taken {
                    self.state.pc.wrapping_add(instruction.op_c)
                } else {
                    self.state.pc.wrapping_add(4)
                }
                &&& after.state.clk == self.state.clk.wrapping_add(4)
                &&& after.state.registers_as(self.state)
                &&& after.state.words_as(self.state)
                &&& after.log == self.log
            }),
    {
        let machine = self.with(self.state.predicted());
        machine.lemma_sources(instruction, 2);
    }

    pub(crate) proof fn lemma_sources(self, instruction: InstructionView, room: int)
        requires
            instruction.op_a < 32,
            instruction.op_b < 32,
            self.state.regular(room),
            room >= 2,
        ensures
            ({
                let (state, a, b) = self.state.source_values(instruction);
                &&& state.regular(room - 2)
                &&& a == self.state.value_of(instruction.op_a)
                &&& b == self.state.value_of(instruction.op_b)
            }),
    {
        let rs1 = Register::from_u32(instruction.op_a);
        let rs2 = Register::from_u32(instruction.op_b);
        Register::lemma_number(instruction.op_a);
        Register::lemma_number(instruction.op_b);
        self.state.lemma_used(rs2, room);
        self.state.register_used(rs2).lemma_used(rs1, room - 1);
    }

    /// A jump goes to its target and leaves the address of the next word in its destination. It
    /// changes no other register, no word and no log.
    pub proof fn law_jump(self, instruction: InstructionView)
        requires
            instruction.opcode == Opcode::JAL || instruction.opcode == Opcode::JALR,
            instruction.decodable(),
            self.state.regular(2),
        ensures
            ({
                let (after, outcome) = self.executed(instruction);
                &&& outcome is Ok
                &&& after.state.pc == if instruction.opcode == Opcode::JAL {
                    self.state.pc.wrapping_add(instruction.op_b)
                } else {
                    self.state.value_of(instruction.op_b).wrapping_add(instruction.op_c)
                }
                &&& after.state.clk == self.state.clk.wrapping_add(4)
                &&& after.state.registers_but(
                    self.state,
                    instruction.op_a,
                    self.state.pc.wrapping_add(4),
                )
                &&& after.state.words_as(self.state)
                &&& after.log == self.log
            }),
    {
        let machine = self.with(self.state.predicted());
        let rd = Register::from_u32(instruction.op_a);
        let back = self.state.pc.wrapping_add(4);
        Register::lemma_number(instruction.op_a);
        if instruction.opcode == Opcode::JAL {
            machine.state.lemma_written(rd, back, 2);
        } else {
            let rs1 = Register::from_u32(instruction.op_b);
            Register::lemma_number(instruction.op_b);
            machine.state.lemma_used(rs1, 2);
            machine.state.register_used(rs1).lemma_written(rd, back, 1);
        }
    }

    /// An address relative to the program counter goes to the destination, and execution goes on
    /// to the next word. No other register, no word and no log changes.
    pub proof fn law_auipc(self, instruction: InstructionView)
        requires
            instruction.opcode == Opcode::AUIPC,
            instruction.decodable(),
            self.state.regular(1),
        ensures
            ({
                let (after, outcome) = self.executed(instruction);
                &&& outcome is Ok
                &&& after.state.pc == self.state.pc.wrapping_add(4)
                &&& after.state.clk == self.state.clk.wrapping_add(4)
                &&& after.state.registers_but(
                    self.state,
                    instruction.op_a,
                    self.state.pc.wrapping_add(instruction.op_b),
                )
                &&& after.state.words_as(self.state)
                &&& after.log == self.log
            }),
    {
        let machine = self.with(self.state.predicted());
        let a = self.state.pc.wrapping_add(instruction.op_b);
        Register::lemma_number(instruction.op_a);
        machine.state.lemma_written(Register::from_u32(instruction.op_a), a, 1);
    }

    /// A breakpoint and an instruction that does not exist fail, and change nothing but the count
    /// of predictions.
    pub proof fn law_trap(self, instruction: InstructionView)
        requires
            instruction.opcode == Opcode::EBREAK || instruction.opcode == Opcode::UNIMP,
        ensures
            self.executed(instruction) == (
                self.with(self.state.predicted()),
                Err::<(), ExecutionError>(
                    if instruction.opcode == Opcode::EBREAK {
                        ExecutionError::Breakpoint()
                    } else {
                        ExecutionError::Unimplemented()
                    },
                ),
            ),
    {
    }

    /// Every instruction that is no system call keeps the machine sound, registers in their places
    /// and register zero at zero.
    pub proof fn law_kept(self, instruction: InstructionView, room: int)
        requires
            instruction.decodable(),
            self.sound(),
            self.state.regular(room),
            room >= 3,
        ensures
            self.executed(instruction).0.sound(),
            self.executed(instruction).0.state.regular(room - 3),
    {
        let machine = self.with(self.state.predicted());
        assert(machine.sound());
        let rd = Register::from_u32(instruction.op_a);
        let opcode = instruction.opcode;
        if opcode.is_alu() {
            machine.lemma_alu_kept(instruction, room);
        } else if opcode.is_load() {
            machine.lemma_load(instruction, room);
            let (read, addr, word) = machine.load_operands(instruction);
            if aligned_for(opcode, addr) {
                let a = loaded(opcode, word, addr);
                read.state.lemma_written(rd, a, room - 1);
                let written = read.with(read.state.register_written(rd, a));
                assert(written.sound());
            }
        } else if opcode.is_store() {
            machine.lemma_store(instruction, room);
            let (looked, a, addr, word) = machine.store_operands(instruction);
            if aligned_for(opcode, addr) {
                let shard = looked.state.current_shard;
                let time = looked.state.time(MemoryAccessPosition::Memory);
                let value = stored(opcode, word, a, addr);
                looked.lemma_wrote(word_address(addr), value, shard, time);
                looked.lemma_write_regular(word_address(addr), value, shard, time, room - 2);
            }
        } else if opcode.is_branch() {
            machine.lemma_sources(instruction, room);
        } else if opcode == Opcode::JAL {
            machine.state.lemma_written(rd, self.state.pc.wrapping_add(4), room);
        } else if opcode == Opcode::JALR {
            let rs1 = Register::from_u32(instruction.op_b);
            machine.state.lemma_used(rs1, room);
            machine.state.register_used(rs1).lemma_written(
                rd,
                self.state.pc.wrapping_add(4),
                room - 1,
            );
        } else if opcode == Opcode::AUIPC {
            machine.state.lemma_written(rd, self.state.pc.wrapping_add(instruction.op_b), room);
        }
    }

    proof fn lemma_alu_kept(self, instruction: InstructionView, room: int)
        requires
            instruction.opcode.is_alu(),
            self.sound(),
            self.state.regular(room),
            room >= 3,
        ensures
            self.after_alu(instruction).sound(),
            self.after_alu(instruction).state.regular(room - 3),
    {
        let (fetched, b, c) = self.state.alu_operands(instruction);
        let a = alu_result(instruction.opcode, b, c);
        let rd = Register::from_u32(instruction.op_a);
        let rs1 = Register::from_u32(instruction.op_b);
        if !instruction.imm_c {
            let rs2 = Register::from_u32(instruction.op_c);
            self.state.lemma_used(rs2, room);
            self.state.register_used(rs2).lemma_used(rs1, room - 1);
            fetched.lemma_written(rd, a, room - 2);
        } else if !instruction.imm_b {
            self.state.lemma_used(rs1, room);
            fetched.lemma_written(rd, a, room - 1);
        } else {
            fetched.lemma_written(rd, a, room);
        }
    }

    /// What a store has stored is what a load of the same width gives back from the same address.
    pub proof fn law_store_load(self, store: InstructionView, load: InstructionView)
        requires
            (store.opcode == Opcode::SB && load.opcode == Opcode::LBU) || (store.opcode
                == Opcode::SH && load.opcode == Opcode::LHU) || (store.opcode == Opcode::SW
                && load.opcode == Opcode::LW),
            store.decodable(),
            load.decodable(),
            store.op_b == load.op_b,
            store.op_c == load.op_c,
            aligned_for(
                store.opcode,
                self.state.value_of(store.op_b).wrapping_add(store.op_c),
            ),
            self.state.regular(5),
            self.sound(),
        ensures
            ({
                let (after, outcome) = self.executed(store).0.executed(load);
                let value = self.state.value_of(store.op_a);
                &&& self.executed(store).1 is Ok
                &&& outcome is Ok
                &&& after.state.registers_but(
                    self.state,
                    load.op_a,
                    if store.opcode == Opcode::SB {
                        value % 0x100
                    } else if store.opcode == Opcode::SH {
                        value % 0x1_0000
                    } else {
                        value
                    },
                )
            }),
    {
        let addr = self.state.value_of(store.op_b).wrapping_add(store.op_c);
        let word = self.state.word_at(word_address(addr));
        let value = self.state.value_of(store.op_a);
        let middle = self.executed(store).0;
        self.law_store(store);
        self.law_kept(store, 5);
        middle.law_load(load);
        assert(middle.state.value_of(load.op_b) == self.state.value_of(store.op_b));
        law_store_byte(word, value, addr, 0);
        if store.opcode == Opcode::SH {
            law_store_half(word, value, addr, 0);
        }
        if store.opcode == Opcode::SW {
            law_store_word(word, value, addr);
        }
    }
}

impl MachineView {
    /// What an instruction that is no system call leaves alone: the scheduler, the instruction
    /// cache, the loop tracker, the statistics of system calls, the global clock, the shard, the
    /// streams, the initial values of words, the mode of execution and the output.
    pub proof fn law_untouched(self, instruction: InstructionView)
        ensures
            ({
                let after = self.executed(instruction).0;
                &&& after.state == (StateView {
                    scheduler: self.state.scheduler,
                    syscall_stats: self.state.syscall_stats,
                    icache: self.state.icache,
                    current_shard: self.state.current_shard,
                    register_access_count: self.state.register_access_count,
                    loops: self.state.loops,
                    page_cache: self.state.page_cache,
                    global_clk: self.state.global_clk,
                    uninitialized_memory: self.state.uninitialized_memory,
                    input_stream: self.state.input_stream,
                    input_stream_ptr: self.state.input_stream_ptr,
                    proof_stream_ptr: self.state.proof_stream_ptr,
                    public_values_stream: self.state.public_values_stream,
                    public_values_stream_ptr: self.state.public_values_stream_ptr,
                    syscall_counts: self.state.syscall_counts,
                    ..after.state
                })
                &&& after.log.executor_mode == self.log.executor_mode
                &&& after.log.unconstrained == self.log.unconstrained
                &&& after.log.io_buf == self.log.io_buf
            }),
    {
        reveal(MachineView::load_operands);
        reveal(MachineView::store_operands);
        let machine = self.with(self.state.predicted());
        if instruction.opcode.is_store() {
            let (state, a, b) = machine.state.source_values(instruction);
            let addr = b.wrapping_add(instruction.op_c);
            machine.with(state).lemma_look_frame(word_address(addr));
        }
    }
}

impl StateView {
    /// What has been written to a register is what is read from it, zero where it is register zero;
    /// all other registers are read as before. The write is dated, and it changes no word, neither the
    /// program counter nor the clock. No register is spilled, and the counters of the two registers
    /// have room for the accesses.
    pub proof fn law_write_read_register(self, register: Register, value: u32, other: Register)
        requires
            self.registers.len() == NUM_REGISTERS,
            self.allocator.unspilled(),
            self.allocator.access_counts[register as int] + 2 <= u32::MAX,
            self.allocator.access_counts[other as int] + 1 <= u32::MAX,
        ensures
            ({
                let after = self.register_written(register, value);
                let kept = if register == Register::X0 {
                    0
                } else {
                    value
                };
                &&& after.register_value(register) == kept
                &&& other != register ==> after.register_value(other) == self.register_value(other)
                &&& after.registers[register as int] == (MemoryRecord {
                    value: kept,
                    shard: self.current_shard,
                    timestamp: self.time(MemoryAccessPosition::A),
                })
                &&& after.same_memory(self)
                &&& after.pc == self.pc
                &&& after.clk == self.clk
            }),
    {
        let after = self.register_written(register, value);
        self.allocator.law_unspilled(register, self.pc, 0);
        let counted = self.allocator.recorded(register, self.pc);
        counted.law_unspilled(register, self.pc, 0);
        counted.recorded(register, self.pc).law_unspilled(register, self.pc, 0);
        self.allocator.law_unspilled(other, self.pc, 0);
        self.allocator.recorded(other, self.pc).law_unspilled(other, self.pc, 0);
        assert(register as int == other as int <==> register == other);
        if other != register {
            self.allocator.law_access(register, self.pc, other as int);
            counted.law_unspilled(other, self.pc, 0);
            counted.recorded(other, self.pc).law_unspilled(other, self.pc, 0);
        } else {
            self.allocator.law_access(register, self.pc, register as int);
        }
    }
}

impl MachineView {
    /// What a register holds after an instruction.
    pub open spec fn left_in(self, instruction: InstructionView, register: u32) -> u32 {
        self.executed(instruction).0.state.value_of(register)
    }

    /// A register operation leaves its result in its destination.
    proof fn lemma_left(self, instruction: InstructionView)
        requires
            instruction.opcode.is_alu(),
            instruction.decodable(),
            instruction.op_a != 0,
            self.state.fits(instruction),
        ensures
            self.left_in(instruction, instruction.op_a) == alu_result(
                instruction.opcode,
                self.state.operand_b(instruction),
                self.state.operand_c(instruction),
            ),
    {
        self.law_alu(instruction);
    }

    /// The instructions of signed division and remainder on the same operands leave a quotient and a
    /// remainder that make up the dividend again. The remainder is smaller than the divisor and has
    /// the sign of the dividend. Division by zero leaves all ones and the dividend.
    pub proof fn law_signed_division(self, instruction: InstructionView)
        requires
            instruction.opcode == Opcode::DIV,
            instruction.decodable(),
            instruction.op_a != 0,
            self.state.fits(instruction),
        ensures
            ({
                let b = self.state.operand_b(instruction);
                let c = self.state.operand_c(instruction);
                let q = self.left_in(instruction, instruction.op_a);
                let r = self.left_in(
                    InstructionView { opcode: Opcode::REM, ..instruction },
                    instruction.op_a,
                );
                &&& b == q.wrapping_mul(c).wrapping_add(r)
                &&& c == 0 ==> q == u32::MAX && r == b
                &&& c != 0 ==> size_of(signed(r)) < size_of(signed(c))
                &&& c != 0 ==> signed(r) == 0 || (signed(r) < 0 <==> signed(b) < 0)
                &&& b == 0x8000_0000 && c == u32::MAX ==> q == 0x8000_0000 && r == 0
            }),
    {
        self.lemma_left(instruction);
        self.lemma_left(InstructionView { opcode: Opcode::REM, ..instruction });
        law_division(self.state.operand_b(instruction), self.state.operand_c(instruction));
    }

    /// The instructions of unsigned division and remainder on the same operands leave a quotient and
    /// a remainder that make up the dividend again, and the remainder is smaller than the divisor.
    /// Division by zero leaves all ones and the dividend.
    pub proof fn law_unsigned_division(self, instruction: InstructionView)
        requires
            instruction.opcode == Opcode::DIVU,
            instruction.decodable(),
            instruction.op_a != 0,
            self.state.fits(instruction),
        ensures
            ({
                let b = self.state.operand_b(instruction);
                let c = self.state.operand_c(instruction);
                let q = self.left_in(instruction, instruction.op_a);
                let r = self.left_in(
                    InstructionView { opcode: Opcode::REMU, ..instruction },
                    instruction.op_a,
                );
                &&& b == q.wrapping_mul(c).wrapping_add(r)
                &&& c == 0 ==> q == u32::MAX && r == b
                &&& c != 0 ==> r < c
            }),
    {
        self.lemma_left(instruction);
        self.lemma_left(InstructionView { opcode: Opcode::REMU, ..instruction });
        law_division(self.state.operand_b(instruction), self.state.operand_c(instruction));
    }

    /// The instructions of multiplication on the same operands leave the low and the high word of one
    /// product, signed, unsigned, or signed by unsigned.
    pub proof fn law_multiplication(self, instruction: InstructionView)
        requires
            instruction.opcode == Opcode::MUL,
            instruction.decodable(),
            instruction.op_a != 0,
            self.state.fits(instruction),
        ensures
            ({
                let b = self.state.operand_b(instruction);
                let c = self.state.operand_c(instruction);
                let rd = instruction.op_a;
                let low = self.left_in(instruction, rd) as int;
                let high = |opcode: Opcode| self.left_in(InstructionView { opcode, ..instruction }, rd);
                &&& signed(high(Opcode::MULH)) * word_count() + low == signed(b) * signed(c)
                &&& high(Opcode::MULHU) * word_count() + low == b * c
                &&& signed(high(Opcode::MULHSU)) * word_count() + low == signed(b) * c
            }),
    {
        self.lemma_left(instruction);
        self.lemma_left(InstructionView { opcode: Opcode::MULH, ..instruction });
        self.lemma_left(InstructionView { opcode: Opcode::MULHU, ..instruction });
        self.lemma_left(InstructionView { opcode: Opcode::MULHSU, ..instruction });
        law_product(self.state.operand_b(instruction), self.state.operand_c(instruction));
    }
}

} // verus!
