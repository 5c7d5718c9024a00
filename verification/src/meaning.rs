//! What the instructions mean: laws on the numbers that registers and words hold before and after
//! an instruction has been executed.
use vstd::arithmetic::power2::pow2;
use vstd::prelude::*;

#[allow(unused_imports)]
use crate::access::{region_of, SPATIAL_REGION_SIZE};
#[allow(unused_imports)]
use crate::alu::{alu_result, law_division, law_product};
#[allow(unused_imports)]
use crate::cycle::{ExecutorView, SetupView};
#[allow(unused_imports)]
use crate::error::ExecutionError;
#[allow(unused_imports)]
use crate::events::{MemoryAccessPosition, MemoryLocalEvent, MemoryRecord};
#[allow(unused_imports)]
use crate::isa::{InstructionView, Opcode, Register};
#[allow(unused_imports)]
use crate::lanes::{aligned_for, byte_lane, byte_of, loaded, stored};
#[allow(unused_imports)]
use crate::machine::word_address;
#[allow(unused_imports)]
use crate::memory::{LogView, MachineView};
#[allow(unused_imports)]
use crate::mode::ExecutorMode;
#[allow(unused_imports)]
use crate::state::{page_of, StateView};

verus! {

/// The number that a word is in two's complement.
pub open spec fn twos(word: u32) -> int {
    if word < 0x8000_0000 {
        word as int
    } else {
        word - 0x1_0000_0000
    }
}

/// The first operand of a register operation: the operand itself where both are immediate,
/// otherwise what its register holds.
pub open spec fn first_operand(state: StateView, instruction: InstructionView) -> u32 {
    if instruction.imm_b && instruction.imm_c {
        instruction.op_b
    } else {
        state.registers[instruction.op_b as int].value
    }
}

/// The second operand of a register operation: the operand itself where it is immediate, otherwise
/// what its register holds.
pub open spec fn second_operand(state: StateView, instruction: InstructionView) -> u32 {
    if instruction.imm_c {
        instruction.op_c
    } else {
        state.registers[instruction.op_c as int].value
    }
}

impl SetupView {
    pub(crate) proof fn lemma_plain_step(
        self,
        before: ExecutorView,
        instruction: InstructionView,
        after: ExecutorView,
        outcome: Result<(), ExecutionError>,
    )
        requires
            self.stepped(before, instruction, after, outcome),
            instruction.opcode != Opcode::ECALL,
        ensures
            (after.machine, outcome) == before.machine.executed(instruction),
            after.cache == before.cache,
    {
        reveal(SetupView::stepped);
    }

    /// A register operation fails never, writes its destination at the fourth step of its time and
    /// goes on to the next word. No other register changes, no word and no log.
    pub proof fn law_operation(
        self,
        before: ExecutorView,
        instruction: InstructionView,
        after: ExecutorView,
        outcome: Result<(), ExecutionError>,
    )
        requires
            self.stepped(before, instruction, after, outcome),
            instruction.opcode.is_alu(),
            instruction.decodable(),
            before.machine.state.fits(instruction),
        ensures
            ({
                let old_state = before.machine.state;
                let new_state = after.machine.state;
                let rd = instruction.op_a as int;
                &&& outcome is Ok
                &&& new_state.pc == old_state.pc.wrapping_add(4)
                &&& new_state.clk == old_state.clk.wrapping_add(4)
                &&& new_state.registers.len() == 32
                &&& forall|i: int|
                    0 <= i < 32 && i != rd ==> #[trigger] new_state.registers[i]
                        == old_state.registers[i]
                &&& new_state.registers[0].value == 0
                &&& new_state.registers[rd].shard == old_state.current_shard
                &&& new_state.registers[rd].timestamp == old_state.clk.wrapping_add(3)
                &&& new_state.memory == old_state.memory
                &&& new_state.pages == old_state.pages
                &&& new_state.page_cache == old_state.page_cache
                &&& after.machine.log == before.machine.log
                &&& after.cache == before.cache
            }),
    {
        self.lemma_plain_step(before, instruction, after, outcome);
        let machine = before.machine.with(before.machine.state.predicted());
        machine.lemma_operands(instruction);
        let (fetched, b, c) = machine.state.alu_operands(instruction);
        fetched.lemma_access(Register::from_u32(instruction.op_a));
        Register::lemma_number(instruction.op_a);
        assert(Register::from_u32(instruction.op_a) as int == 0 <==> Register::from_u32(
            instruction.op_a,
        ) == Register::X0);
    }

    proof fn lemma_left_register(
        self,
        before: ExecutorView,
        instruction: InstructionView,
        after: ExecutorView,
        outcome: Result<(), ExecutionError>,
    )
        requires
            self.stepped(before, instruction, after, outcome),
            instruction.opcode.is_alu(),
            instruction.decodable(),
            instruction.op_a != 0,
            before.machine.state.fits(instruction),
        ensures
            outcome is Ok,
            after.machine.state.registers[instruction.op_a as int].value == alu_result(
                instruction.opcode,
                first_operand(before.machine.state, instruction),
                second_operand(before.machine.state, instruction),
            ),
    {
        self.lemma_plain_step(before, instruction, after, outcome);
        before.machine.law_alu(instruction);
        assert(after.machine.state.value_of(instruction.op_a)
            == after.machine.state.registers[instruction.op_a as int].value);
    }

    /// A sum is the sum of its operands up to multiples of 2^32, and a difference is what makes up
    /// the first operand together with the second.
    pub proof fn law_sum(
        self,
        before: ExecutorView,
        instruction: InstructionView,
        after: ExecutorView,
        outcome: Result<(), ExecutionError>,
    )
        requires
            self.stepped(before, instruction, after, outcome),
            instruction.opcode == Opcode::ADD || instruction.opcode == Opcode::SUB,
            instruction.decodable(),
            instruction.op_a != 0,
            before.machine.state.fits(instruction),
        ensures
            ({
                let b = first_operand(before.machine.state, instruction) as int;
                let c = second_operand(before.machine.state, instruction) as int;
                let a = after.machine.state.registers[instruction.op_a as int].value as int;
                &&& instruction.opcode == Opcode::ADD ==> (b + c - a) % 0x1_0000_0000 == 0
                &&& instruction.opcode == Opcode::SUB ==> (a + c - b) % 0x1_0000_0000 == 0
            }),
    {
        self.lemma_left_register(before, instruction, after, outcome);
    }

    /// Each bit of a logical operation comes from the same bits of its operands.
    pub proof fn law_logic(
        self,
        before: ExecutorView,
        instruction: InstructionView,
        after: ExecutorView,
        outcome: Result<(), ExecutionError>,
        i: u32,
    )
        requires
            self.stepped(before, instruction, after, outcome),
            instruction.opcode == Opcode::AND || instruction.opcode == Opcode::OR
                || instruction.opcode == Opcode::XOR,
            instruction.decodable(),
            instruction.op_a != 0,
            before.machine.state.fits(instruction),
            i < 32,
        ensures
            ({
                let b = first_operand(before.machine.state, instruction) >> i & 1 == 1;
                let c = second_operand(before.machine.state, instruction) >> i & 1 == 1;
                let a = after.machine.state.registers[instruction.op_a as int].value >> i & 1 == 1;
                &&& instruction.opcode == Opcode::AND ==> a == (b && c)
                &&& instruction.opcode == Opcode::OR ==> a == (b || c)
                &&& instruction.opcode == Opcode::XOR ==> a == (b != c)
            }),
    {
        self.lemma_left_register(before, instruction, after, outcome);
        let b = first_operand(before.machine.state, instruction);
        let c = second_operand(before.machine.state, instruction);
        assert(((b & c) >> i & 1 == 1) == ((b >> i & 1 == 1) && (c >> i & 1 == 1)) && (((b | c) >> i
            & 1 == 1) == ((b >> i & 1 == 1) || (c >> i & 1 == 1))) && (((b ^ c) >> i & 1 == 1) == ((
        b >> i & 1 == 1) != (c >> i & 1 == 1)))) by (bit_vector)
            requires
                i < 32,
        ;
    }

    /// A shift to the left multiplies by a power of two, up to multiples of 2^32. A shift to the right
    /// divides by it and rounds down, on the number itself or on the number in two's complement. The
    /// distance is the second operand modulo 32.
    pub proof fn law_shift(
        self,
        before: ExecutorView,
        instruction: InstructionView,
        after: ExecutorView,
        outcome: Result<(), ExecutionError>,
    )
        requires
            self.stepped(before, instruction, after, outcome),
            instruction.opcode == Opcode::SLL || instruction.opcode == Opcode::SRL
                || instruction.opcode == Opcode::SRA,
            instruction.decodable(),
            instruction.op_a != 0,
            before.machine.state.fits(instruction),
        ensures
            ({
                let b = first_operand(before.machine.state, instruction);
                let power = pow2(
                    (second_operand(before.machine.state, instruction) % 32) as nat,
                ) as int;
                let a = after.machine.state.registers[instruction.op_a as int].value;
                &&& instruction.opcode == Opcode::SLL ==> (b * power - a) % 0x1_0000_0000 == 0
                &&& instruction.opcode == Opcode::SRL ==> a * power <= b < (a + 1) * power
                &&& instruction.opcode == Opcode::SRA ==> twos(a) * power <= twos(b) < (twos(a)
                    + 1) * power
            }),
    {
        self.lemma_left_register(before, instruction, after, outcome);
        let b = first_operand(before.machine.state, instruction);
        let c = second_operand(before.machine.state, instruction);
        lemma_shifts(b, (c % 32) as nat);
    }

    /// A comparison leaves one where the first operand is less than the second, and zero where it is
    /// not: as numbers in two's complement or as they are.
    pub proof fn law_comparison(
        self,
        before: ExecutorView,
        instruction: InstructionView,
        after: ExecutorView,
        outcome: Result<(), ExecutionError>,
    )
        requires
            self.stepped(before, instruction, after, outcome),
            instruction.opcode == Opcode::SLT || instruction.opcode == Opcode::SLTU,
            instruction.decodable(),
            instruction.op_a != 0,
            before.machine.state.fits(instruction),
        ensures
            ({
                let b = first_operand(before.machine.state, instruction);
                let c = second_operand(before.machine.state, instruction);
                let a = after.machine.state.registers[instruction.op_a as int].value;
                &&& a == 0 || a == 1
                &&& instruction.opcode == Opcode::SLTU ==> (a == 1 <==> b < c)
                &&& instruction.opcode == Opcode::SLT ==> (a == 1 <==> twos(b) < twos(c))
            }),
    {
        self.lemma_left_register(before, instruction, after, outcome);
    }

    /// The low word of a product is the product up to multiples of 2^32; a high word and the low word
    /// together are the product of the operands, as numbers in two's complement, as they are, or one
    /// so and the other so.
    pub proof fn law_product_words(
        self,
        before: ExecutorView,
        instruction: InstructionView,
        after: ExecutorView,
        outcome: Result<(), ExecutionError>,
    )
        requires
            self.stepped(before, instruction, after, outcome),
            instruction.opcode == Opcode::MUL || instruction.opcode == Opcode::MULH
                || instruction.opcode == Opcode::MULHU || instruction.opcode == Opcode::MULHSU,
            instruction.decodable(),
            instruction.op_a != 0,
            before.machine.state.fits(instruction),
        ensures
            ({
                let b = first_operand(before.machine.state, instruction);
                let c = second_operand(before.machine.state, instruction);
                let a = after.machine.state.registers[instruction.op_a as int].value;
                &&& instruction.opcode == Opcode::MUL ==> (b * c - a) % 0x1_0000_0000 == 0
                &&& instruction.opcode == Opcode::MULHU ==> a * 0x1_0000_0000 <= b * c < (a + 1)
                    * 0x1_0000_0000
                &&& instruction.opcode == Opcode::MULH ==> twos(a) * 0x1_0000_0000 <= twos(b) * twos(
                    c,
                ) < (twos(a) + 1) * 0x1_0000_0000
                &&& instruction.opcode == Opcode::MULHSU ==> twos(a) * 0x1_0000_0000 <= twos(b) * c
                    < (twos(a) + 1) * 0x1_0000_0000
            }),
    {
        self.lemma_left_register(before, instruction, after, outcome);
        let b = first_operand(before.machine.state, instruction);
        let c = second_operand(before.machine.state, instruction);
        law_product(b, c);
    }

    /// A quotient is the dividend divided by the divisor and rounded toward zero, and a remainder is
    /// what is left of it. Division by zero leaves all ones and the dividend; the one quotient that no
    /// word holds leaves the dividend and zero.
    pub proof fn law_quotient(
        self,
        before: ExecutorView,
        instruction: InstructionView,
        after: ExecutorView,
        outcome: Result<(), ExecutionError>,
    )
        requires
            self.stepped(before, instruction, after, outcome),
            instruction.opcode == Opcode::DIV || instruction.opcode == Opcode::DIVU
                || instruction.opcode == Opcode::REM || instruction.opcode == Opcode::REMU,
            instruction.decodable(),
            instruction.op_a != 0,
            before.machine.state.fits(instruction),
        ensures
            ({
                let b = first_operand(before.machine.state, instruction);
                let c = second_operand(before.machine.state, instruction);
                let a = after.machine.state.registers[instruction.op_a as int].value;
                let opcode = instruction.opcode;
                &&& c == 0 && (opcode == Opcode::DIV || opcode == Opcode::DIVU) ==> a == 0xffff_ffff
                &&& c == 0 && (opcode == Opcode::REM || opcode == Opcode::REMU) ==> a == b
                &&& c != 0 && opcode == Opcode::DIVU ==> a * c <= b < (a + 1) * c
                &&& c != 0 && opcode == Opcode::REMU ==> a < c && exists|q: int|
                    0 <= q && #[trigger] (q * c) + a == b
                &&& c != 0 && opcode == Opcode::DIV ==> {
                    if twos(b) == -0x8000_0000 && twos(c) == -1 {
                        a == b
                    } else {
                        exists|r: int| #[trigger]
                            rest_of(r, twos(b), twos(c)) && twos(a) * twos(c) + r == twos(b)
                    }
                }
                &&& c != 0 && opcode == Opcode::REM ==> {
                    &&& rest_of(twos(a), twos(b), twos(c))
                    &&& exists|q: int| #[trigger] (q * twos(c)) + twos(a) == twos(b)
                }
            }),
    {
        self.lemma_left_register(before, instruction, after, outcome);
        let b = first_operand(before.machine.state, instruction);
        let c = second_operand(before.machine.state, instruction);
        if c != 0 {
            lemma_quotients(b, c);
        }
    }
}

/// What is left of a division that is rounded toward zero: less than the divisor, and of the sign of
/// the dividend.
pub open spec fn rest_of(rest: int, dividend: int, divisor: int) -> bool {
    &&& -divisor < rest < divisor || divisor < rest < -divisor
    &&& dividend >= 0 ==> rest >= 0
    &&& dividend <= 0 ==> rest <= 0
}

proof fn lemma_shifts(b: u32, distance: nat)
    requires
        distance < 32,
    ensures
        ({
            let power = pow2(distance) as int;
            let c = distance as u32;
            let left = alu_result(Opcode::SLL, b, c);
            let right = alu_result(Opcode::SRL, b, c);
            let down = alu_result(Opcode::SRA, b, c);
            &&& (b * power - left) % 0x1_0000_0000 == 0
            &&& right * power <= b < (right + 1) * power
            &&& twos(down) * power <= twos(b) < (twos(down) + 1) * power
        }),
{
    let power = pow2(distance) as int;
    vstd::arithmetic::power2::lemma_pow2_pos(distance);
    let product = b * power;
    vstd::arithmetic::div_mod::lemma_fundamental_div_mod(product, 0x1_0000_0000);
    lemma_floor(b as int, power);
    lemma_floor(twos(b), power);
}

proof fn lemma_floor(value: int, power: int)
    requires
        power > 0,
        -0x8000_0000 <= value < 0x1_0000_0000,
    ensures
        (value / power) * power <= value < (value / power + 1) * power,
        value >= 0 ==> 0 <= value / power <= value,
        value < 0 ==> value <= value / power < 0,
{
    let q = value / power;
    vstd::arithmetic::div_mod::lemma_fundamental_div_mod(value, power);
    vstd::arithmetic::div_mod::lemma_mod_bound(value, power);
    assert(q * power <= value < (q + 1) * power) by (nonlinear_arith)
        requires
            value == power * q + value % power,
            0 <= value % power < power,
    ;
    assert((value >= 0 ==> 0 <= q <= value) && (value < 0 ==> value <= q < 0)) by (nonlinear_arith)
        requires
            q * power <= value < (q + 1) * power,
            power > 0,
    ;
}

proof fn lemma_quotients(b: u32, c: u32)
    requires
        c != 0,
    ensures
        ({
            let q = alu_result(Opcode::DIVU, b, c);
            let r = alu_result(Opcode::REMU, b, c);
            &&& q * c <= b < (q + 1) * c
            &&& r < c
            &&& exists|k: int| 0 <= k && #[trigger] (k * c) + r == b
        }),
        ({
            let q = alu_result(Opcode::DIV, b, c);
            let r = alu_result(Opcode::REM, b, c);
            &&& twos(b) == -0x8000_0000 && twos(c) == -1 ==> q == b
            &&& !(twos(b) == -0x8000_0000 && twos(c) == -1) ==> exists|k: int| #[trigger]
                rest_of(k, twos(b), twos(c)) && twos(q) * twos(c) + k == twos(b)
            &&& rest_of(twos(r), twos(b), twos(c))
            &&& exists|k: int| #[trigger] (k * twos(c)) + twos(r) == twos(b)
        }),
{
    law_division(b, c);
    crate::alu::lemma_truncated_division(b, c);
    vstd::arithmetic::div_mod::lemma_fundamental_div_mod(b as int, c as int);
    vstd::arithmetic::div_mod::lemma_mod_bound(b as int, c as int);
    let k = (b / c) as int;
    assert(k * c == c * k) by (nonlinear_arith);
    assert(k * c + b % c == b);
    assert((k + 1) * c == k * c + c) by (nonlinear_arith);
    let n = twos(b);
    let d = twos(c);
    let r = twos(alu_result(Opcode::REM, b, c));
    let q = crate::alu::truncated_quotient(n, d);
    assert(q * d + r == n);
    if !(n == -0x8000_0000 && d == -1) {
        assert(rest_of(r, n, d) && twos(alu_result(Opcode::DIV, b, c)) * d + r == n);
    }
}

/// The record of a word: that of its page of 4096 addresses where the page has one, otherwise that of
/// the sparse memory.
pub open spec fn record_of(state: StateView, addr: u32) -> Option<MemoryRecord> {
    let page = (addr - addr % 4096) as u32;
    if state.pages.contains_key(page) && state.pages[page].initialized.contains(addr) {
        Some(state.pages[page].values[addr as int % 4096])
    } else {
        state.memory.get(addr)
    }
}

/// What a load finds in a word: its value, the value that it is initialized with where there is no
/// record, and zero where there is neither.
pub open spec fn found_in(state: StateView, addr: u32) -> u32 {
    match record_of(state, addr) {
        Some(record) => record.value,
        None => match state.uninitialized_memory.get(addr) {
            Some(value) => value,
            None => 0,
        },
    }
}

/// What a store finds in a word: its value, zero where there is no record.
pub open spec fn held_in(state: StateView, addr: u32) -> u32 {
    match record_of(state, addr) {
        Some(record) => record.value,
        None => 0,
    }
}

proof fn lemma_record_of(state: StateView, addr: u32)
    ensures
        record_of(state, addr) == state.record_at(addr),
        found_in(state, addr) == state.effective_record(addr).value,
        held_in(state, addr) == state.word_at(addr),
{
}

impl SetupView {
    /// A load reads the word that its address lies in, the sum of a register and a distance up to
    /// multiples of 2^32. It leaves the word, or the byte or half of it that the address selects: as a
    /// number from zero on, or as the number in two's complement that agrees with it. It fails where a
    /// half is not at an even address, or a word not at a multiple of four.
    pub proof fn law_load_value(
        self,
        before: ExecutorView,
        instruction: InstructionView,
        after: ExecutorView,
        outcome: Result<(), ExecutionError>,
    )
        requires
            self.stepped(before, instruction, after, outcome),
            instruction.opcode == Opcode::LB || instruction.opcode == Opcode::LBU
                || instruction.opcode == Opcode::LH || instruction.opcode == Opcode::LHU
                || instruction.opcode == Opcode::LW,
            instruction.op_a < 32,
            instruction.op_b < 32,
            before.machine.state.regular(2),
            before.machine.sound(),
        ensures
            ({
                let opcode = instruction.opcode;
                let old_state = before.machine.state;
                let new_state = after.machine.state;
                let addr = old_state.registers[instruction.op_b as int].value.wrapping_add(
                    instruction.op_c,
                );
                let word = found_in(old_state, (addr - addr % 4) as u32) as int;
                let byte = if addr % 4 == 0 {
                    word % 0x100
                } else if addr % 4 == 1 {
                    word / 0x100 % 0x100
                } else if addr % 4 == 2 {
                    word / 0x1_0000 % 0x100
                } else {
                    word / 0x100_0000
                };
                let half = if addr % 4 == 0 {
                    word % 0x1_0000
                } else {
                    word / 0x1_0000
                };
                let a = new_state.registers[instruction.op_a as int].value;
                let fails = (opcode == Opcode::LW && addr % 4 != 0) || ((opcode == Opcode::LH
                    || opcode == Opcode::LHU) && addr % 2 != 0);
                &&& outcome == if fails {
                    Err::<(), ExecutionError>(ExecutionError::InvalidMemoryAccess(opcode, addr))
                } else {
                    Ok(())
                }
                &&& !fails && instruction.op_a != 0 ==> {
                    &&& opcode == Opcode::LW ==> a == word
                    &&& opcode == Opcode::LBU ==> a == byte
                    &&& opcode == Opcode::LHU ==> a == half
                    &&& opcode == Opcode::LB ==> -0x80 <= twos(a) < 0x80 && (twos(a) - byte) % 0x100
                        == 0
                    &&& opcode == Opcode::LH ==> -0x8000 <= twos(a) < 0x8000 && (twos(a) - half)
                        % 0x1_0000 == 0
                }
                &&& !fails ==> {
                    &&& new_state.pc == old_state.pc.wrapping_add(4)
                    &&& new_state.clk == old_state.clk.wrapping_add(4)
                }
                &&& fails ==> {
                    &&& new_state.pc == old_state.pc
                    &&& new_state.clk == old_state.clk
                    &&& a == old_state.registers[instruction.op_a as int].value
                }
                &&& forall|i: int|
                    0 <= i < 32 && i != instruction.op_a ==> #[trigger] new_state.registers[i].value
                        == old_state.registers[i].value
                &&& new_state.registers[0].value == 0
                &&& record_of(new_state, (addr - addr % 4) as u32) == Some(
                    MemoryRecord {
                        value: word as u32,
                        shard: old_state.current_shard,
                        timestamp: old_state.clk,
                    },
                )
                &&& forall|other: u32|
                    other != addr - addr % 4 ==> #[trigger] record_of(new_state, other) == record_of(
                        old_state,
                        other,
                    )
            }),
    {
        let old_state = before.machine.state;
        let addr = old_state.registers[instruction.op_b as int].value.wrapping_add(
            instruction.op_c,
        );
        self.lemma_load_step(before, instruction, after, outcome);
        crate::lanes::law_loaded_number(found_in(old_state, (addr - addr % 4) as u32), addr);
    }

    proof fn lemma_load_step(
        self,
        before: ExecutorView,
        instruction: InstructionView,
        after: ExecutorView,
        outcome: Result<(), ExecutionError>,
    )
        requires
            self.stepped(before, instruction, after, outcome),
            instruction.opcode.is_load(),
            instruction.op_a < 32,
            instruction.op_b < 32,
            before.machine.state.regular(2),
            before.machine.sound(),
        ensures
            ({
                let opcode = instruction.opcode;
                let old_state = before.machine.state;
                let new_state = after.machine.state;
                let addr = old_state.registers[instruction.op_b as int].value.wrapping_add(
                    instruction.op_c,
                );
                let at = (addr - addr % 4) as u32;
                let word = found_in(old_state, at);
                let fails = !aligned_for(opcode, addr);
                &&& outcome == if fails {
                    Err::<(), ExecutionError>(ExecutionError::InvalidMemoryAccess(opcode, addr))
                } else {
                    Ok(())
                }
                &&& new_state.registers[instruction.op_a as int].value == if fails {
                    old_state.registers[instruction.op_a as int].value
                } else if instruction.op_a == 0 {
                    0
                } else {
                    loaded(opcode, word, addr)
                }
                &&& new_state.pc == if fails {
                    old_state.pc
                } else {
                    old_state.pc.wrapping_add(4)
                }
                &&& new_state.clk == if fails {
                    old_state.clk
                } else {
                    old_state.clk.wrapping_add(4)
                }
                &&& forall|i: int|
                    0 <= i < 32 && i != instruction.op_a ==> #[trigger] new_state.registers[i].value
                        == old_state.registers[i].value
                &&& new_state.registers[0].value == 0
                &&& record_of(new_state, at) == Some(
                    MemoryRecord {
                        value: word,
                        shard: old_state.current_shard,
                        timestamp: old_state.clk,
                    },
                )
                &&& forall|other: u32|
                    other != at ==> #[trigger] record_of(new_state, other) == record_of(
                        old_state,
                        other,
                    )
            }),
    {
        self.lemma_plain_step(before, instruction, after, outcome);
        before.machine.law_load(instruction);
        let old_state = before.machine.state;
        let new_state = after.machine.state;
        let addr = old_state.value_of(instruction.op_b).wrapping_add(instruction.op_c);
        let at = (addr - addr % 4) as u32;
        lemma_record_of(old_state, at);
        lemma_record_of(new_state, at);
        assert forall|other: u32| other != at implies #[trigger] record_of(new_state, other)
            == record_of(old_state, other) by {
            lemma_record_of(old_state, other);
            lemma_record_of(new_state, other);
            assert(new_state.record_at(other) == old_state.record_at(other));
        }
        assert forall|i: int| 0 <= i < 32 && i != instruction.op_a implies #[trigger] new_state.registers[i].value
            == old_state.registers[i].value by {
            assert(new_state.value_of(i as u32) == old_state.value_of(i as u32));
        }
        assert(new_state.value_of(0) == 0);
        assert(new_state.value_of(instruction.op_a)
            == new_state.registers[instruction.op_a as int].value);
        before.machine.lemma_failed_load(instruction);
    }

    /// A store changes the byte, half or word that its address selects to the low part of a register,
    /// and leaves the rest of the word, all other words and all registers as they are. It fails where a
    /// half is not at an even address, or a word not at a multiple of four, and changes nothing then.
    pub proof fn law_store_value(
        self,
        before: ExecutorView,
        instruction: InstructionView,
        after: ExecutorView,
        outcome: Result<(), ExecutionError>,
    )
        requires
            self.stepped(before, instruction, after, outcome),
            instruction.opcode == Opcode::SB || instruction.opcode == Opcode::SH
                || instruction.opcode == Opcode::SW,
            instruction.op_a < 32,
            instruction.op_b < 32,
            before.machine.state.regular(2),
            before.machine.sound(),
        ensures
            ({
                let opcode = instruction.opcode;
                let old_state = before.machine.state;
                let new_state = after.machine.state;
                let value = old_state.registers[instruction.op_a as int].value;
                let addr = old_state.registers[instruction.op_b as int].value.wrapping_add(
                    instruction.op_c,
                );
                let at = (addr - addr % 4) as u32;
                let old_word = held_in(old_state, at) as int;
                let new_word = held_in(new_state, at) as int;
                let fails = (opcode == Opcode::SW && addr % 4 != 0) || (opcode == Opcode::SH && addr
                    % 2 != 0);
                &&& outcome == if fails {
                    Err::<(), ExecutionError>(ExecutionError::InvalidMemoryAccess(opcode, addr))
                } else {
                    Ok(())
                }
                &&& !fails && opcode == Opcode::SW ==> new_word == value
                &&& !fails && opcode == Opcode::SH ==> {
                    &&& new_word % 0x1_0000 == if addr % 4 == 0 {
                        value as int % 0x1_0000
                    } else {
                        old_word % 0x1_0000
                    }
                    &&& new_word / 0x1_0000 == if addr % 4 == 2 {
                        value as int % 0x1_0000
                    } else {
                        old_word / 0x1_0000
                    }
                }
                &&& opcode == Opcode::SB ==> {
                    let byte = value as int % 0x100;
                    &&& new_word % 0x100 == if addr % 4 == 0 {
                        byte
                    } else {
                        old_word % 0x100
                    }
                    &&& new_word / 0x100 % 0x100 == if addr % 4 == 1 {
                        byte
                    } else {
                        old_word / 0x100 % 0x100
                    }
                    &&& new_word / 0x1_0000 % 0x100 == if addr % 4 == 2 {
                        byte
                    } else {
                        old_word / 0x1_0000 % 0x100
                    }
                    &&& new_word / 0x100_0000 == if addr % 4 == 3 {
                        byte
                    } else {
                        old_word / 0x100_0000
                    }
                }
                &&& !fails ==> {
                    &&& new_state.pc == old_state.pc.wrapping_add(4)
                    &&& new_state.clk == old_state.clk.wrapping_add(4)
                    &&& record_of(new_state, at) is Some
                    &&& record_of(new_state, at).unwrap().shard == old_state.current_shard
                    &&& record_of(new_state, at).unwrap().timestamp == old_state.clk
                }
                &&& fails ==> {
                    &&& new_state.pc == old_state.pc
                    &&& new_state.clk == old_state.clk
                    &&& record_of(new_state, at) == record_of(old_state, at)
                }
                &&& forall|i: int|
                    0 <= i < 32 ==> #[trigger] new_state.registers[i].value
                        == old_state.registers[i].value
                &&& forall|other: u32|
                    other != at ==> #[trigger] record_of(new_state, other) == record_of(
                        old_state,
                        other,
                    )
            }),
    {
        let old_state = before.machine.state;
        let value = old_state.registers[instruction.op_a as int].value;
        let addr = old_state.registers[instruction.op_b as int].value.wrapping_add(
            instruction.op_c,
        );
        self.lemma_store_step(before, instruction, after, outcome);
        crate::lanes::law_stored_number(
            held_in(old_state, (addr - addr % 4) as u32),
            value,
            addr,
        );
    }

    proof fn lemma_store_step(
        self,
        before: ExecutorView,
        instruction: InstructionView,
        after: ExecutorView,
        outcome: Result<(), ExecutionError>,
    )
        requires
            self.stepped(before, instruction, after, outcome),
            instruction.opcode.is_store(),
            instruction.op_a < 32,
            instruction.op_b < 32,
            before.machine.state.regular(2),
            before.machine.sound(),
        ensures
            ({
                let opcode = instruction.opcode;
                let old_state = before.machine.state;
                let new_state = after.machine.state;
                let value = old_state.registers[instruction.op_a as int].value;
                let addr = old_state.registers[instruction.op_b as int].value.wrapping_add(
                    instruction.op_c,
                );
                let at = (addr - addr % 4) as u32;
                let word = held_in(old_state, at);
                let fails = !aligned_for(opcode, addr);
                &&& outcome == if fails {
                    Err::<(), ExecutionError>(ExecutionError::InvalidMemoryAccess(opcode, addr))
                } else {
                    Ok(())
                }
                &&& new_state.pc == if fails {
                    old_state.pc
                } else {
                    old_state.pc.wrapping_add(4)
                }
                &&& new_state.clk == if fails {
                    old_state.clk
                } else {
                    old_state.clk.wrapping_add(4)
                }
                &&& record_of(new_state, at) == if fails {
                    record_of(old_state, at)
                } else {
                    Some(
                        MemoryRecord {
                            value: stored(opcode, word, value, addr),
                            shard: old_state.current_shard,
                            timestamp: old_state.clk,
                        },
                    )
                }
                &&& forall|i: int|
                    0 <= i < 32 ==> #[trigger] new_state.registers[i].value
                        == old_state.registers[i].value
                &&& forall|other: u32|
                    other != at ==> #[trigger] record_of(new_state, other) == record_of(
                        old_state,
                        other,
                    )
            }),
    {
        self.lemma_plain_step(before, instruction, after, outcome);
        before.machine.law_store(instruction);
        let old_state = before.machine.state;
        let new_state = after.machine.state;
        let addr = old_state.value_of(instruction.op_b).wrapping_add(instruction.op_c);
        let at = (addr - addr % 4) as u32;
        lemma_record_of(old_state, at);
        lemma_record_of(new_state, at);
        assert forall|other: u32| other != at implies #[trigger] record_of(new_state, other)
            == record_of(old_state, other) by {
            lemma_record_of(old_state, other);
            lemma_record_of(new_state, other);
            assert(new_state.record_at(other) == old_state.record_at(other));
        }
        assert(new_state.record_at(at) == new_state.record_at(at));
        assert forall|i: int| 0 <= i < 32 implies #[trigger] new_state.registers[i].value
            == old_state.registers[i].value by {
            assert(new_state.value_of(i as u32) == old_state.value_of(i as u32));
        }
        before.machine.lemma_failed_store(instruction);
    }

    /// A conditional branch goes to its target where the two registers compare as it asks: equal or
    /// not, less or not, as numbers in two's complement or as they are. Otherwise it goes on to the
    /// next word. No register, no word and no log changes.
    pub proof fn law_branch_order(
        self,
        before: ExecutorView,
        instruction: InstructionView,
        after: ExecutorView,
        outcome: Result<(), ExecutionError>,
    )
        requires
            self.stepped(before, instruction, after, outcome),
            instruction.opcode == Opcode::BEQ || instruction.opcode == Opcode::BNE
                || instruction.opcode == Opcode::BLT || instruction.opcode == Opcode::BGE
                || instruction.opcode == Opcode::BLTU || instruction.opcode == Opcode::BGEU,
            instruction.op_a < 32,
            instruction.op_b < 32,
            before.machine.state.regular(2),
        ensures
            ({
                let opcode = instruction.opcode;
                let old_state = before.machine.state;
                let new_state = after.machine.state;
                let a = old_state.registers[instruction.op_a as int].value;
                let b = old_state.registers[instruction.op_b as int].value;
                let there = old_state.pc.wrapping_add(instruction.op_c);
                let on = old_state.pc.wrapping_add(4);
                &&& outcome is Ok
                &&& opcode == Opcode::BEQ ==> new_state.pc == if a == b { there } else { on }
                &&& opcode == Opcode::BNE ==> new_state.pc == if a == b { on } else { there }
                &&& opcode == Opcode::BLT ==> new_state.pc == if twos(a) < twos(b) { there } else {
                    on
                }
                &&& opcode == Opcode::BGE ==> new_state.pc == if twos(a) < twos(b) { on } else {
                    there
                }
                &&& opcode == Opcode::BLTU ==> new_state.pc == if a < b { there } else { on }
                &&& opcode == Opcode::BGEU ==> new_state.pc == if a < b { on } else { there }
                &&& there != on ==> new_state.branch == old_state.branch.asked().told(
                    old_state.pc,
                    opcode,
                    new_state.pc == there,
                    new_state.pc,
                )
                &&& new_state.clk == old_state.clk.wrapping_add(4)
                &&& new_state.registers == old_state.registers
                &&& new_state.memory == old_state.memory
                &&& new_state.pages == old_state.pages
                &&& new_state.page_cache == old_state.page_cache
                &&& after.machine.log == before.machine.log
            }),
    {
        self.lemma_plain_step(before, instruction, after, outcome);
        before.machine.law_branch(instruction);
    }

    /// Branches that ask for the opposite go apart, a branch on less goes on where both registers are
    /// the same, and where a register is less than a second and the second less than a third, it is
    /// less than the third. Where both numbers have the same sign, it does not matter whether they are
    /// taken in two's complement.
    pub proof fn law_branch_pairs(
        self,
        before: ExecutorView,
        instruction: InstructionView,
        after: ExecutorView,
        outcome: Result<(), ExecutionError>,
        opposite_after: ExecutorView,
        opposite_outcome: Result<(), ExecutionError>,
        plain_after: ExecutorView,
        plain_outcome: Result<(), ExecutionError>,
    )
        requires
            instruction.opcode == Opcode::BLT,
            instruction.op_a < 32,
            instruction.op_b < 32,
            before.machine.state.regular(2),
            before.machine.state.pc.wrapping_add(instruction.op_c)
                != before.machine.state.pc.wrapping_add(4),
            self.stepped(before, instruction, after, outcome),
            self.stepped(
                before,
                InstructionView { opcode: Opcode::BGE, ..instruction },
                opposite_after,
                opposite_outcome,
            ),
            self.stepped(
                before,
                InstructionView { opcode: Opcode::BLTU, ..instruction },
                plain_after,
                plain_outcome,
            ),
        ensures
            ({
                let old_state = before.machine.state;
                let a = old_state.registers[instruction.op_a as int].value;
                let b = old_state.registers[instruction.op_b as int].value;
                &&& after.machine.state.pc != opposite_after.machine.state.pc
                &&& a == b ==> after.machine.state.pc == old_state.pc.wrapping_add(4)
                &&& (a < 0x8000_0000) == (b < 0x8000_0000) ==> after.machine.state.pc
                    == plain_after.machine.state.pc
                &&& a >= 0x8000_0000 && b < 0x8000_0000 ==> after.machine.state.pc
                    == old_state.pc.wrapping_add(instruction.op_c) && plain_after.machine.state.pc
                    == old_state.pc.wrapping_add(4)
            }),
    {
        self.law_branch_order(before, instruction, after, outcome);
        self.law_branch_order(
            before,
            InstructionView { opcode: Opcode::BGE, ..instruction },
            opposite_after,
            opposite_outcome,
        );
        self.law_branch_order(
            before,
            InstructionView { opcode: Opcode::BLTU, ..instruction },
            plain_after,
            plain_outcome,
        );
    }

    /// A jump goes to a distance from itself, or to a distance from what a register holds, and leaves
    /// the address of the word behind it. An address relative to the program counter is left the same
    /// way without a jump. No other register, no word and no log changes.
    pub proof fn law_jump_target(
        self,
        before: ExecutorView,
        instruction: InstructionView,
        after: ExecutorView,
        outcome: Result<(), ExecutionError>,
    )
        requires
            self.stepped(before, instruction, after, outcome),
            instruction.opcode == Opcode::JAL || instruction.opcode == Opcode::JALR
                || instruction.opcode == Opcode::AUIPC,
            instruction.decodable(),
            before.machine.state.regular(2),
        ensures
            ({
                let opcode = instruction.opcode;
                let old_state = before.machine.state;
                let new_state = after.machine.state;
                let rd = instruction.op_a as int;
                let pc = old_state.pc as int;
                &&& outcome is Ok
                &&& opcode == Opcode::JAL ==> (new_state.pc - pc - instruction.op_b)
                    % 0x1_0000_0000 == 0
                &&& opcode == Opcode::JALR ==> (new_state.pc
                    - old_state.registers[instruction.op_b as int].value - instruction.op_c)
                    % 0x1_0000_0000 == 0
                &&& opcode == Opcode::AUIPC ==> (new_state.pc - pc - 4) % 0x1_0000_0000 == 0
                &&& rd != 0 && opcode != Opcode::AUIPC ==> (new_state.registers[rd].value - pc - 4)
                    % 0x1_0000_0000 == 0
                &&& rd != 0 && opcode == Opcode::AUIPC ==> (new_state.registers[rd].value - pc
                    - instruction.op_b) % 0x1_0000_0000 == 0
                &&& new_state.registers[0].value == 0
                &&& new_state.registers[rd].shard == old_state.current_shard
                &&& new_state.registers[rd].timestamp == old_state.clk.wrapping_add(3)
                &&& new_state.clk == old_state.clk.wrapping_add(4)
                &&& forall|i: int|
                    0 <= i < 32 && i != rd ==> #[trigger] new_state.registers[i]
                        == old_state.registers[i]
                &&& new_state.memory == old_state.memory
                &&& new_state.pages == old_state.pages
                &&& new_state.page_cache == old_state.page_cache
                &&& after.machine.log == before.machine.log
            }),
    {
        self.lemma_plain_step(before, instruction, after, outcome);
        let machine = before.machine.with(before.machine.state.predicted());
        let rd = Register::from_u32(instruction.op_a);
        Register::lemma_number(instruction.op_a);
        assert(rd as int == 0 <==> rd == Register::X0);
        if instruction.opcode == Opcode::JALR {
            let rs1 = Register::from_u32(instruction.op_b);
            Register::lemma_number(instruction.op_b);
            machine.state.lemma_used(rs1, 2);
            machine.state.register_used(rs1).lemma_access(rd);
        } else {
            machine.state.lemma_access(rd);
        }
    }

    /// A breakpoint and an instruction that does not exist fail, each with its own error, and change
    /// nothing but that the branch predictor has been asked once more.
    pub proof fn law_trapped(
        self,
        before: ExecutorView,
        instruction: InstructionView,
        after: ExecutorView,
        outcome: Result<(), ExecutionError>,
    )
        requires
            self.stepped(before, instruction, after, outcome),
            instruction.opcode == Opcode::EBREAK || instruction.opcode == Opcode::UNIMP,
        ensures
            instruction.opcode == Opcode::EBREAK ==> outcome == Err::<(), ExecutionError>(
                ExecutionError::Breakpoint(),
            ),
            instruction.opcode == Opcode::UNIMP ==> outcome == Err::<(), ExecutionError>(
                ExecutionError::Unimplemented(),
            ),
            after.machine.log == before.machine.log,
            after.machine.state == (StateView {
                branch: after.machine.state.branch,
                ..before.machine.state
            }),
    {
        self.lemma_plain_step(before, instruction, after, outcome);
    }
}

/// The record of a word before an access: where there is none, one of time zero that holds the initial
/// value.
pub open spec fn prior_record(state: StateView, addr: u32) -> MemoryRecord {
    match record_of(state, addr) {
        Some(record) => record,
        None => MemoryRecord { value: found_in(state, addr), shard: 0, timestamp: 0 },
    }
}

/// What an access leaves in the log: the first record of a word in a batch or a fork, the first and the
/// last record of a word in a shard.
pub open spec fn logged(
    before: MachineView,
    addr: u32,
    left: MemoryRecord,
    own: bool,
    log: LogView,
) -> bool {
    let old_log = before.log;
    let prior = prior_record(before.state, addr);
    let keeps = old_log.executor_mode == ExecutorMode::Checkpoint || old_log.unconstrained;
    let diff = old_log.unconstrained_state.memory_diff;
    let events = old_log.local_memory_access;
    let noted = old_log.uninitialized_memory_checkpoint;
    &&& log.executor_mode == old_log.executor_mode
    &&& log.unconstrained == old_log.unconstrained
    &&& log.io_buf == old_log.io_buf
    &&& log.memory_checkpoint == if keeps && !old_log.memory_checkpoint.contains_key(addr) {
        old_log.memory_checkpoint.insert(addr, record_of(before.state, addr))
    } else {
        old_log.memory_checkpoint
    }
    &&& log.uninitialized_memory_checkpoint == if record_of(before.state, addr) is None
        && !noted.contains_key(addr) {
        noted.insert(addr, prior.value != 0)
    } else {
        noted
    }
    &&& log.unconstrained_state.memory_diff == if old_log.unconstrained && !diff.contains_key(addr) {
        diff.insert(addr, Some(prior))
    } else {
        diff
    }
    &&& log.local_memory_access == if old_log.unconstrained || !own {
        events
    } else if events.contains_key(addr) {
        events.insert(
            addr,
            MemoryLocalEvent {
                addr: events[addr].addr,
                initial_mem_access: events[addr].initial_mem_access,
                final_mem_access: left,
            },
        )
    } else {
        events.insert(
            addr,
            MemoryLocalEvent { addr, initial_mem_access: prior, final_mem_access: left },
        )
    }
}

impl MachineView {
    /// A read gives the value of a word, its initial value where it has no record, with the time of the
    /// access before. It dates the word and changes no other word and no register.
    pub proof fn law_read_word(self, addr: u32, shard: u32, timestamp: u32, own: bool)
        requires
            self.sound(),
        ensures
            ({
                let record = self.read_record(addr, shard, timestamp);
                let prior = prior_record(self.state, addr);
                let after = self.read(addr, shard, timestamp, own);
                let left = MemoryRecord { value: prior.value, shard, timestamp };
                &&& record.value == found_in(self.state, addr)
                &&& record.shard == shard
                &&& record.timestamp == timestamp
                &&& record.prev_shard == prior.shard
                &&& record.prev_timestamp == prior.timestamp
                &&& record_of(after.state, addr) == Some(left)
                &&& forall|other: u32|
                    other != addr ==> #[trigger] record_of(after.state, other) == record_of(
                        self.state,
                        other,
                    )
                &&& after.state == (StateView {
                    memory: after.state.memory,
                    pages: after.state.pages,
                    prefetch: self.looked_up(addr).state.prefetch.refreshed(addr, left),
                    stride: self.looked_up(addr).state.stride,
                    ..self.state
                })
                &&& logged(self, addr, left, own, after.log)
            }),
    {
        let after = self.read(addr, shard, timestamp, own);
        self.law_read(addr, shard, timestamp, own, addr);
        lemma_record_of(self.state, addr);
        lemma_record_of(after.state, addr);
        assert forall|other: u32| other != addr implies #[trigger] record_of(after.state, other)
            == record_of(self.state, other) by {
            self.law_read(addr, shard, timestamp, own, other);
            lemma_record_of(self.state, other);
            lemma_record_of(after.state, other);
        }
        self.state.lemma_buffered(addr);
    }

    /// A write sets the value and the time of a word and gives those from before. It changes no other
    /// word and no register.
    pub proof fn law_write_word(
        self,
        addr: u32,
        value: u32,
        shard: u32,
        timestamp: u32,
        own: bool,
    )
        requires
            self.sound(),
        ensures
            ({
                let record = self.write_record(addr, value, shard, timestamp);
                let prior = prior_record(self.state, addr);
                let after = self.wrote(addr, value, shard, timestamp, own);
                let left = MemoryRecord { value, shard, timestamp };
                &&& record.value == value
                &&& record.shard == shard
                &&& record.timestamp == timestamp
                &&& record.prev_value == prior.value
                &&& record.prev_shard == prior.shard
                &&& record.prev_timestamp == prior.timestamp
                &&& record_of(after.state, addr) == Some(left)
                &&& forall|other: u32|
                    other != addr ==> #[trigger] record_of(after.state, other) == record_of(
                        self.state,
                        other,
                    )
                &&& after.state == (StateView {
                    memory: after.state.memory,
                    pages: after.state.pages,
                    prefetch: self.state.prefetch.refreshed(addr, left),
                    ..self.state
                })
                &&& logged(self, addr, left, own, after.log)
            }),
    {
        let after = self.wrote(addr, value, shard, timestamp, own);
        self.law_write(addr, value, shard, timestamp, own, addr);
        lemma_record_of(self.state, addr);
        lemma_record_of(after.state, addr);
        assert forall|other: u32| other != addr implies #[trigger] record_of(after.state, other)
            == record_of(self.state, other) by {
            self.law_write(addr, value, shard, timestamp, own, other);
            lemma_record_of(self.state, other);
            lemma_record_of(after.state, other);
        }
    }

    /// A look gives the value of a word, zero where it has no record, and changes no word, no register
    /// and no date. In a batch the record of the word may be kept, the first one that it has.
    pub proof fn law_look_word(self, addr: u32)
        requires
            self.sound(),
        ensures
            ({
                let after = self.looked_at(addr);
                let kept = self.log.memory_checkpoint.insert(addr, record_of(self.state, addr));
                let keeps = self.log.executor_mode == ExecutorMode::Checkpoint
                    || self.log.unconstrained;
                let held = exists|i: int|
                    0 <= i < 32 && #[trigger] self.state.prefetch.valid[i]
                        && self.state.prefetch.entries[i].0 == addr;
                &&& self.word(addr) == held_in(self.state, addr)
                &&& after.state == (StateView {
                    prefetch: after.state.prefetch,
                    accesses: after.state.accesses,
                    ..self.state
                })
                &&& after.log == (LogView {
                    memory_checkpoint: after.log.memory_checkpoint,
                    ..self.log
                })
                &&& after.log.memory_checkpoint == if keeps && !held
                    && !self.log.memory_checkpoint.contains_key(addr) {
                    kept
                } else {
                    self.log.memory_checkpoint
                }
            }),
    {
        self.law_look(addr, addr);
        self.lemma_look_frame(addr);
        lemma_record_of(self.state, addr);
        let prefetch = self.state.prefetch;
        if exists|i: int|
            0 <= i < 32 && #[trigger] prefetch.valid[i] && prefetch.entries[i].0 == addr {
            let i = choose|i: int|
                0 <= i < 32 && #[trigger] prefetch.valid[i] && prefetch.entries[i].0 == addr;
            assert(prefetch.hit(i, addr));
        } else if prefetch.holds(addr) {
            let i = choose|i: int| #[trigger] prefetch.hit(i, addr);
            assert(prefetch.valid[i]);
        }
    }
}

impl StateView {
    /// A record that is put at an address goes to the page of the address where the page is in use, and
    /// to the sparse memory otherwise. It is found there, and all other records stay.
    pub proof fn law_put(self, addr: u32, record: MemoryRecord, other: u32)
        requires
            self.paged(),
        ensures
            ({
                let page = (addr - addr % 4096) as u32;
                let after = self.written(addr, record);
                &&& record_of(after, addr) == Some(record)
                &&& other != addr ==> record_of(after, other) == record_of(self, other)
                &&& self.page_cache.contains(page) ==> after.memory == self.memory
                    && after.pages.contains_key(page)
                &&& !self.page_cache.contains(page) ==> after.pages == self.pages && after.memory
                    == self.memory.insert(addr, record)
                &&& after == (StateView {
                    memory: after.memory,
                    pages: after.pages,
                    prefetch: self.prefetch.refreshed(addr, record),
                    ..self
                })
            }),
    {
        self.law_write_read(addr, record, addr);
        self.law_write_read(addr, record, other);
        lemma_record_of(self.written(addr, record), addr);
        lemma_record_of(self.written(addr, record), other);
        lemma_record_of(self, other);
        lemma_record_of(self, addr);
    }

    /// The accesses of an instruction follow each other: the word of memory at the time of the
    /// instruction, then the operands `c`, `b` and `a`, one step after the other.
    pub proof fn law_times(self)
        ensures
            self.time(MemoryAccessPosition::Memory) == self.clk,
            self.time(MemoryAccessPosition::C) == self.clk.wrapping_add(1),
            self.time(MemoryAccessPosition::B) == self.clk.wrapping_add(2),
            self.time(MemoryAccessPosition::A) == self.clk.wrapping_add(3),
    {
    }

    /// A register that is set holds what it was set to, all others stay, and a register that is looked
    /// at is counted and stays.
    pub proof fn law_set(self, register: int, record: MemoryRecord, other: int)
        requires
            self.registers.len() == 32,
            self.register_access_count.len() == 32,
            0 <= register < 32,
            0 <= other < 32,
        ensures
            self.register_set(register, record).registers[other] == if other == register {
                record
            } else {
                self.registers[other]
            },
            self.register_set(register, record) == (StateView {
                registers: self.register_set(register, record).registers,
                ..self
            }),
            self.register_counted(register).register_access_count[other] == if other == register {
                self.register_access_count[other].wrapping_add(1)
            } else {
                self.register_access_count[other]
            },
            self.register_counted(register) == (StateView {
                register_access_count: self.register_counted(register).register_access_count,
                ..self
            }),
            self.all_counted().register_access_count[other]
                == self.register_access_count[other].wrapping_add(1),
            self.all_counted() == (StateView {
                register_access_count: self.all_counted().register_access_count,
                ..self
            }),
    {
    }

    /// A spilled register lives in a word of its own, above all others: it is read from there and
    /// written there, and its own place stays as it is.
    pub proof fn law_spilled_register(self, register: Register, value: u32)
        requires
            self.paged(),
            self.allocator.live_ranges.contains_key(register as u32),
            self.allocator.live_ranges[register as u32].is_spilled,
        ensures
            ({
                let at = (0xffff_0000 + 4 * (register as int)) as u32;
                let after = self.register_written(register, value);
                &&& self.register_value(register) == held_in(self, at)
                &&& after.registers == self.registers
                &&& record_of(after, at) == Some(
                    MemoryRecord {
                        value: if register == Register::X0 {
                            0
                        } else {
                            value
                        },
                        shard: self.current_shard,
                        timestamp: self.clk.wrapping_add(3),
                    },
                )
                &&& after.register_value(register) == if register == Register::X0 {
                    0
                } else {
                    value
                }
            }),
    {
        let at = (0xffff_0000 + 4 * (register as int)) as u32;
        let used = self.register_used(register);
        let after = self.register_written(register, value);
        assert(used.allocator.spilled(register));
        assert(used.paged());
        lemma_record_of(self, at);
        lemma_record_of(after, at);
        let record = MemoryRecord {
            value: if register == Register::X0 {
                0
            } else {
                value
            },
            shard: self.current_shard,
            timestamp: self.time(MemoryAccessPosition::A),
        };
        used.law_write_read(at, record, at);
        assert(after.register_used(register).allocator.spilled(register));
    }
}

/// The word of an address is at the multiple of four below it, and its four bytes are its digits to the
/// base of 256, the lowest first.
pub proof fn law_byte_digits(word: u32, addr: u32)
    ensures
        ({
            let w = word as int;
            let byte = byte_of(word, byte_lane(addr));
            &&& word_address(addr) as int == 4 * (addr as int / 4)
            &&& addr % 4 == 0 ==> byte == w % 0x100
            &&& addr % 4 == 1 ==> byte == w / 0x100 % 0x100
            &&& addr % 4 == 2 ==> byte == w / 0x1_0000 % 0x100
            &&& addr % 4 == 3 ==> byte == w / 0x100_0000
        }),
{
}

impl SetupView {
    /// A load and a store leave in the log what one access of their word leaves: the record that the
    /// word had before is kept for the batch or the fork, and the event of the word goes from its first
    /// record to the one that the access has left.
    pub proof fn law_access_log(
        self,
        before: ExecutorView,
        instruction: InstructionView,
        after: ExecutorView,
        outcome: Result<(), ExecutionError>,
    )
        requires
            self.stepped(before, instruction, after, outcome),
            instruction.opcode.is_load() || instruction.opcode.is_store(),
            instruction.op_a < 32,
            instruction.op_b < 32,
            before.machine.state.regular(2),
            before.machine.sound(),
            outcome is Ok,
        ensures
            ({
                let old_state = before.machine.state;
                let addr = old_state.registers[instruction.op_b as int].value.wrapping_add(
                    instruction.op_c,
                );
                let at = (addr - addr % 4) as u32;
                &&& record_of(after.machine.state, at) is Some
                &&& logged(
                    before.machine,
                    at,
                    record_of(after.machine.state, at).unwrap(),
                    true,
                    after.machine.log,
                )
            }),
    {
        if instruction.opcode.is_load() {
            self.lemma_load_step(before, instruction, after, outcome);
            self.lemma_load_log(before, instruction, after, outcome);
        } else {
            self.lemma_store_step(before, instruction, after, outcome);
            self.lemma_store_log(before, instruction, after, outcome);
        }
    }

    proof fn lemma_load_log(
        self,
        before: ExecutorView,
        instruction: InstructionView,
        after: ExecutorView,
        outcome: Result<(), ExecutionError>,
    )
        requires
            self.stepped(before, instruction, after, outcome),
            instruction.opcode.is_load(),
            instruction.op_a < 32,
            instruction.op_b < 32,
            before.machine.state.regular(2),
            before.machine.sound(),
            outcome is Ok,
        ensures
            ({
                let old_state = before.machine.state;
                let addr = old_state.registers[instruction.op_b as int].value.wrapping_add(
                    instruction.op_c,
                );
                let at = (addr - addr % 4) as u32;
                let left = MemoryRecord {
                    value: found_in(old_state, at),
                    shard: old_state.current_shard,
                    timestamp: old_state.clk,
                };
                logged(before.machine, at, left, true, after.machine.log)
            }),
    {
        self.lemma_plain_step(before, instruction, after, outcome);
        let machine = before.machine.with(before.machine.state.predicted());
        let rs1 = Register::from_u32(instruction.op_b);
        Register::lemma_number(instruction.op_b);
        machine.state.lemma_used(rs1, 2);
        let fetched = machine.with(machine.state.register_used(rs1));
        assert(machine.sound());
        assert(fetched.sound());
        let read = machine.load_operands(instruction).0;
        let addr = machine.load_operands(instruction).1;
        assert(after.machine.log == read.log);
        assert(addr == machine.state.register_value(rs1).wrapping_add(instruction.op_c) && read
            == fetched.read(
            word_address(addr),
            fetched.state.current_shard,
            fetched.state.time(MemoryAccessPosition::Memory),
            true,
        )) by {
            reveal(crate::memory::MachineView::load_operands);
        }
        let at = word_address(addr);
        fetched.state.law_times();
        fetched.law_read_word(at, fetched.state.current_shard, fetched.state.clk, true);
        lemma_logged(
            fetched,
            before.machine,
            at,
            MemoryRecord {
                value: found_in(before.machine.state, at),
                shard: before.machine.state.current_shard,
                timestamp: before.machine.state.clk,
            },
            after.machine.log,
        );
    }

    proof fn lemma_store_log(
        self,
        before: ExecutorView,
        instruction: InstructionView,
        after: ExecutorView,
        outcome: Result<(), ExecutionError>,
    )
        requires
            self.stepped(before, instruction, after, outcome),
            instruction.opcode.is_store(),
            instruction.op_a < 32,
            instruction.op_b < 32,
            before.machine.state.regular(2),
            before.machine.sound(),
            outcome is Ok,
        ensures
            ({
                let old_state = before.machine.state;
                let value = old_state.registers[instruction.op_a as int].value;
                let addr = old_state.registers[instruction.op_b as int].value.wrapping_add(
                    instruction.op_c,
                );
                let at = (addr - addr % 4) as u32;
                let left = MemoryRecord {
                    value: stored(instruction.opcode, held_in(old_state, at), value, addr),
                    shard: old_state.current_shard,
                    timestamp: old_state.clk,
                };
                logged(before.machine, at, left, true, after.machine.log)
            }),
    {
        self.lemma_plain_step(before, instruction, after, outcome);
        let machine = before.machine.with(before.machine.state.predicted());
        assert(machine.sound());
        machine.lemma_sources(instruction, 2);
        machine.lemma_store(instruction, 2);
        let fetched = machine.with(machine.state.source_values(instruction).0);
        assert(fetched.sound());
        let (looked, a, addr, word) = machine.store_operands(instruction);
        let at = word_address(addr);
        assert(looked == fetched.looked_at(at)) by {
            reveal(crate::memory::MachineView::store_operands);
        }
        lemma_record_of(machine.state, at);
        lemma_record_of(before.machine.state, at);
        fetched.law_look_word(at);
        looked.state.law_times();
        let value = stored(instruction.opcode, word, a, addr);
        let left = MemoryRecord {
            value,
            shard: looked.state.current_shard,
            timestamp: looked.state.clk,
        };
        looked.law_write_word(at, value, looked.state.current_shard, looked.state.clk, true);
        lemma_logged_after_look(fetched, looked, at, left, after.machine.log);
        lemma_logged(fetched, before.machine, at, left, after.machine.log);
    }
}

proof fn lemma_logged(
    machine: MachineView,
    other: MachineView,
    addr: u32,
    left: MemoryRecord,
    log: LogView,
)
    requires
        logged(machine, addr, left, true, log),
        other.log == machine.log,
        other.state.pages == machine.state.pages,
        other.state.memory == machine.state.memory,
        other.state.uninitialized_memory == machine.state.uninitialized_memory,
    ensures
        logged(other, addr, left, true, log),
{
    assert(record_of(other.state, addr) == record_of(machine.state, addr));
    assert(prior_record(other.state, addr) == prior_record(machine.state, addr));
}

proof fn lemma_logged_after_look(
    machine: MachineView,
    looked: MachineView,
    addr: u32,
    left: MemoryRecord,
    log: LogView,
)
    requires
        logged(looked, addr, left, true, log),
        looked.state.pages == machine.state.pages,
        looked.state.memory == machine.state.memory,
        looked.state.uninitialized_memory == machine.state.uninitialized_memory,
        looked.log == (LogView { memory_checkpoint: looked.log.memory_checkpoint, ..machine.log }),
        looked.log.memory_checkpoint == machine.log.memory_checkpoint
            || looked.log.memory_checkpoint == machine.log.memory_checkpoint.insert(
            addr,
            record_of(machine.state, addr),
        ) && !machine.log.memory_checkpoint.contains_key(addr) && (machine.log.executor_mode
            == ExecutorMode::Checkpoint || machine.log.unconstrained),
    ensures
        logged(machine, addr, left, true, log),
{
    assert(record_of(looked.state, addr) == record_of(machine.state, addr));
    assert(prior_record(looked.state, addr) == prior_record(machine.state, addr));
}

impl StateView {
    /// A page is 4096 addresses from a multiple of 4096 on. A new one holds nothing; a record that is put
    /// into a page is in the place of its address, and all other places stay.
    pub proof fn law_pages(self, addr: u32, record: MemoryRecord, i: int)
        requires
            0 <= i < 4096,
        ensures
            ({
                let page = self.page_at(addr);
                let start = (addr - addr % 4096) as u32;
                &&& page_of(addr) as int == 4096 * (addr as int / 4096)
                &&& self.pages.contains_key(start) ==> page == self.pages[start]
                &&& !self.pages.contains_key(start) ==> {
                    &&& page.values.len() == 4096
                    &&& page.values[i] == (MemoryRecord { value: 0, shard: 0, timestamp: 0 })
                    &&& page.initialized == Set::<u32>::empty()
                    &&& page.access_count == 0
                    &&& page.last_access == 0
                }
                &&& page.values.len() == 4096 ==> {
                    let after = page.with(addr, record);
                    &&& after.values.len() == 4096
                    &&& after.values[i] == if i == addr as int % 4096 {
                        record
                    } else {
                        page.values[i]
                    }
                    &&& after.initialized == page.initialized.insert(addr)
                    &&& after.access_count == page.access_count
                    &&& after.last_access == page.last_access
                }
            }),
    {
    }

    /// A prefetch takes the record of an aligned address into the buffer, where it has one. The words of a
    /// list are prefetched one after the other; those of a line, four bytes apart, only where the buffer
    /// does not hold them.
    pub proof fn law_prefetches(self, addr: u32, addrs: Seq<u32>, count: nat, line: u32)
        ensures
            self.prefetched(addr) == match record_of(self, addr) {
                Some(record) => if addr % 4 == 0 {
                    StateView { prefetch: self.prefetch.inserted(addr, record), ..self }
                } else {
                    self
                },
                None => self,
            },
            self.all_prefetched(addrs, 0) == self,
            self.all_prefetched(addrs, count + 1) == self.all_prefetched(addrs, count).prefetched(
                addrs[count as int],
            ),
            self.line_prefetched(line, 0) == self,
            ({
                let before = self.line_prefetched(line, count);
                let at = line.wrapping_add((4 * count) as u32);
                self.line_prefetched(line, count + 1) == match record_of(before, at) {
                    Some(record) => if before.prefetch.record(at) is None {
                        StateView { prefetch: before.prefetch.inserted(at, record), ..before }
                    } else {
                        before
                    },
                    None => before,
                }
            }),
    {
        lemma_record_of(self, addr);
        let before = self.line_prefetched(line, count);
        lemma_record_of(before, line.wrapping_add((4 * count) as u32));
    }
}

impl MachineView {
    /// A look that the buffer does not answer takes the word into the buffer, then the words that the
    /// tracker predicts, then the sixteen words of the next 64 bytes; the access is followed in any case. A
    /// read that the buffer does not answer takes the word into the buffer, and then the one that the
    /// stride predictor proposes.
    pub proof fn law_ahead(self, addr: u32)
        ensures
            ({
                let followed = self.state.accesses.recorded(addr);
                let noted = StateView { accesses: followed, ..self.state };
                let line = ((addr - addr % 64) as u32).wrapping_add(64);
                let looked = self.looked_at(addr).state;
                let found = self.looked_up(addr).state;
                let proposed = self.state.stride.prediction(addr);
                let held = StateView {
                    stride: self.state.stride.after(addr),
                    prefetch: self.state.prefetch.inserted(addr, prior_record(self.state, addr)),
                    ..self.state
                };
                &&& self.state.prefetch.record(addr) is Some ==> looked == noted && found == self.state
                &&& self.state.prefetch.record(addr) is None ==> {
                    &&& looked == match record_of(self.state, addr) {
                        Some(record) => {
                            let words = followed.predictions(addr);
                            StateView {
                                prefetch: noted.prefetch.inserted(addr, record),
                                ..noted
                            }.all_prefetched(words, words.len()).line_prefetched(line, 16)
                        },
                        None => noted.line_prefetched(line, 16),
                    }
                    &&& found == match proposed {
                        Some(next) => held.prefetched(next),
                        None => held,
                    }
                }
            }),
    {
        lemma_record_of(self.state, addr);
    }
}

impl SetupView {
    /// Every instruction asks the branch predictor once. Its registers are accessed one after the other,
    /// the sources before the destination and the later source first, and the predictor is told of jumps.
    pub proof fn law_bookkeeping(
        self,
        before: ExecutorView,
        instruction: InstructionView,
        after: ExecutorView,
        outcome: Result<(), ExecutionError>,
    )
        requires
            self.stepped(before, instruction, after, outcome),
            instruction.opcode != Opcode::ECALL,
            instruction.opcode != Opcode::EBREAK,
            instruction.opcode != Opcode::UNIMP,
        ensures
            ({
                let old_state = before.machine.state;
                let new_state = after.machine.state;
                let opcode = instruction.opcode;
                let pc = old_state.pc;
                let a = Register::from_u32(instruction.op_a);
                let b = Register::from_u32(instruction.op_b);
                let c = Register::from_u32(instruction.op_c);
                let kept = old_state.allocator;
                let asked = old_state.branch.asked();
                &&& new_state.allocator == if opcode.is_alu() {
                    if !instruction.imm_c {
                        kept.recorded(c, pc).recorded(b, pc).recorded(a, pc)
                    } else if !instruction.imm_b {
                        kept.recorded(b, pc).recorded(a, pc)
                    } else {
                        kept.recorded(a, pc)
                    }
                } else if opcode.is_load() && outcome is Err {
                    kept.recorded(b, pc)
                } else if opcode.is_load() || opcode.is_store() || opcode.is_branch() || opcode
                    == Opcode::JALR {
                    kept.recorded(b, pc).recorded(a, pc)
                } else {
                    kept.recorded(a, pc)
                }
                &&& opcode == Opcode::JAL || opcode == Opcode::JALR ==> new_state.branch == asked.told(
                    pc,
                    opcode,
                    true,
                    new_state.pc,
                )
                &&& opcode.is_alu() || opcode.is_load() || opcode.is_store() || opcode
                    == Opcode::AUIPC ==> new_state.branch == asked
                &&& !opcode.is_store() ==> new_state.accesses == old_state.accesses
                &&& !opcode.is_load() ==> new_state.stride == old_state.stride
                &&& new_state.global_clk == old_state.global_clk
                &&& new_state.current_shard == old_state.current_shard
                &&& new_state.uninitialized_memory == old_state.uninitialized_memory
                &&& new_state.page_cache == old_state.page_cache
                &&& new_state.scheduler == old_state.scheduler
                &&& new_state.icache == old_state.icache
                &&& new_state.loops == old_state.loops
                &&& new_state.syscall_stats == old_state.syscall_stats
                &&& new_state.syscall_counts == old_state.syscall_counts
                &&& new_state.register_access_count == old_state.register_access_count
                &&& new_state.input_stream == old_state.input_stream
                &&& new_state.input_stream_ptr == old_state.input_stream_ptr
                &&& new_state.proof_stream_ptr == old_state.proof_stream_ptr
                &&& new_state.public_values_stream == old_state.public_values_stream
                &&& new_state.public_values_stream_ptr == old_state.public_values_stream_ptr
            }),
    {
        self.lemma_plain_step(before, instruction, after, outcome);
        before.machine.law_untouched(instruction);
        before.machine.lemma_bookkeeping(instruction);
    }
}

impl MachineView {
    proof fn lemma_bookkeeping(self, instruction: InstructionView)
        ensures
            ({
                let (after, outcome) = self.executed(instruction);
                let old_state = self.state;
                let new_state = after.state;
                let opcode = instruction.opcode;
                let pc = old_state.pc;
                let a = Register::from_u32(instruction.op_a);
                let b = Register::from_u32(instruction.op_b);
                let c = Register::from_u32(instruction.op_c);
                let kept = old_state.allocator;
                let asked = old_state.branch.asked();
                &&& opcode.is_alu() ==> new_state.allocator == if !instruction.imm_c {
                    kept.recorded(c, pc).recorded(b, pc).recorded(a, pc)
                } else if !instruction.imm_b {
                    kept.recorded(b, pc).recorded(a, pc)
                } else {
                    kept.recorded(a, pc)
                }
                &&& opcode.is_load() ==> new_state.allocator == if outcome is Err {
                    kept.recorded(b, pc)
                } else {
                    kept.recorded(b, pc).recorded(a, pc)
                }
                &&& opcode.is_store() || opcode.is_branch() || opcode == Opcode::JALR
                    ==> new_state.allocator == kept.recorded(b, pc).recorded(a, pc)
                &&& opcode == Opcode::JAL || opcode == Opcode::AUIPC ==> new_state.allocator
                    == kept.recorded(a, pc)
                &&& opcode == Opcode::JAL || opcode == Opcode::JALR ==> new_state.branch == asked.told(
                    pc,
                    opcode,
                    true,
                    new_state.pc,
                )
                &&& opcode.is_alu() || opcode.is_load() || opcode.is_store() || opcode
                    == Opcode::AUIPC ==> new_state.branch == asked
                &&& !opcode.is_store() ==> new_state.accesses == old_state.accesses
                &&& !opcode.is_load() ==> new_state.stride == old_state.stride
                &&& new_state.page_cache == old_state.page_cache
            }),
    {
        let machine = self.with(self.state.predicted());
        if instruction.opcode.is_load() {
            reveal(MachineView::load_operands);
        } else if instruction.opcode.is_store() {
            reveal(MachineView::store_operands);
            let fetched = machine.with(machine.state.source_values(instruction).0);
            fetched.lemma_look_frame(word_address(machine.store_operands(instruction).2));
        }
    }
}

impl SetupView {
    /// A load reads its word through the buffer and the stride predictor; a store looks at its word first,
    /// which the access tracker is told of, and the buffer follows the write.
    pub proof fn law_memory_bookkeeping(
        self,
        before: ExecutorView,
        instruction: InstructionView,
        after: ExecutorView,
        outcome: Result<(), ExecutionError>,
    )
        requires
            self.stepped(before, instruction, after, outcome),
            instruction.opcode.is_load() || instruction.opcode.is_store(),
            instruction.op_a < 32,
            instruction.op_b < 32,
            before.machine.state.regular(2),
            before.machine.sound(),
            outcome is Ok,
        ensures
            ({
                let old_state = before.machine.state;
                let new_state = after.machine.state;
                let addr = old_state.registers[instruction.op_b as int].value.wrapping_add(
                    instruction.op_c,
                );
                let at = (addr - addr % 4) as u32;
                let left = record_of(new_state, at).unwrap();
                &&& instruction.opcode.is_load() ==> {
                    let found = before.machine.looked_up(at).state;
                    &&& new_state.stride == found.stride
                    &&& new_state.prefetch == found.prefetch.refreshed(at, left)
                }
                &&& instruction.opcode.is_store() ==> {
                    let looked = before.machine.looked_at(at).state;
                    &&& new_state.accesses == old_state.accesses.recorded(at)
                    &&& new_state.prefetch == looked.prefetch.refreshed(at, left)
                }
            }),
    {
        let old_state = before.machine.state;
        let addr = old_state.registers[instruction.op_b as int].value.wrapping_add(
            instruction.op_c,
        );
        let at = (addr - addr % 4) as u32;
        if instruction.opcode.is_load() {
            self.lemma_load_traced(before, instruction, after, outcome, at);
            assert(record_of(after.machine.state, at) == Some(
                MemoryRecord {
                    value: found_in(old_state, at),
                    shard: old_state.current_shard,
                    timestamp: old_state.clk,
                },
            )) by {
                self.lemma_load_step(before, instruction, after, outcome);
            }
        } else {
            self.lemma_store_traced(before, instruction, after, outcome, at);
        }
    }

    proof fn lemma_load_traced(
        self,
        before: ExecutorView,
        instruction: InstructionView,
        after: ExecutorView,
        outcome: Result<(), ExecutionError>,
        at: u32,
    )
        requires
            self.stepped(before, instruction, after, outcome),
            instruction.opcode.is_load(),
            instruction.op_a < 32,
            instruction.op_b < 32,
            before.machine.state.regular(2),
            before.machine.sound(),
            outcome is Ok,
            at == word_address(
                before.machine.state.registers[instruction.op_b as int].value.wrapping_add(
                    instruction.op_c,
                ),
            ),
        ensures
            after.machine.state.stride == before.machine.looked_up(at).state.stride,
            after.machine.state.prefetch == before.machine.looked_up(at).state.prefetch.refreshed(
                at,
                (MemoryRecord {
                    value: found_in(before.machine.state, at),
                    shard: before.machine.state.current_shard,
                    timestamp: before.machine.state.clk,
                }),
            ),
    {
        self.lemma_plain_step(before, instruction, after, outcome);
        before.machine.lemma_load_buffer(instruction, at);
    }

    proof fn lemma_store_traced(
        self,
        before: ExecutorView,
        instruction: InstructionView,
        after: ExecutorView,
        outcome: Result<(), ExecutionError>,
        at: u32,
    )
        requires
            self.stepped(before, instruction, after, outcome),
            instruction.opcode.is_store(),
            instruction.op_a < 32,
            instruction.op_b < 32,
            before.machine.state.regular(2),
            before.machine.sound(),
            outcome is Ok,
            at == word_address(
                before.machine.state.registers[instruction.op_b as int].value.wrapping_add(
                    instruction.op_c,
                ),
            ),
        ensures
            after.machine.state.accesses == before.machine.state.accesses.recorded(at),
            after.machine.state.prefetch == before.machine.looked_at(at).state.prefetch.refreshed(
                at,
                record_of(after.machine.state, at).unwrap(),
            ),
    {
        self.lemma_plain_step(before, instruction, after, outcome);
        before.machine.lemma_store_buffer(instruction, at);
    }
}

impl MachineView {
    /// What a look finds and leaves in the buffer does not depend on the rest of the state.
    proof fn lemma_same_buffer(self, other: MachineView, addr: u32)
        requires
            other.state == (StateView {
                branch: other.state.branch,
                allocator: other.state.allocator,
                ..self.state
            }),
        ensures
            other.looked_up(addr).state.prefetch == self.looked_up(addr).state.prefetch,
            other.looked_up(addr).state.stride == self.looked_up(addr).state.stride,
            other.looked_at(addr).state.prefetch == self.looked_at(addr).state.prefetch,
            other.looked_at(addr).state.accesses == self.looked_at(addr).state.accesses,
    {
        let followed = self.state.accesses.recorded(addr);
        let noted = StateView { accesses: followed, ..self.state };
        let other_noted = StateView { accesses: followed, ..other.state };
        let line = ((addr - addr % 64) as u32).wrapping_add(64);
        self.law_ahead(addr);
        other.law_ahead(addr);
        lemma_record_of(self.state, addr);
        lemma_record_of(other.state, addr);
        match self.state.record_at(addr) {
            Some(record) => {
                let words = followed.predictions(addr);
                let start = noted.buffered(addr, record);
                let other_start = other_noted.buffered(addr, record);
                start.lemma_same_all(other_start, words, words.len());
                start.all_prefetched(words, words.len()).lemma_same_line(
                    other_start.all_prefetched(words, words.len()),
                    line,
                    16,
                );
            },
            None => {
                noted.lemma_same_line(other_noted, line, 16);
            },
        }
    }

    proof fn lemma_load_buffer(self, instruction: InstructionView, at: u32)
        requires
            instruction.opcode.is_load(),
            instruction.op_a < 32,
            instruction.op_b < 32,
            self.state.regular(2),
            self.sound(),
            self.executed(instruction).1 is Ok,
            at == word_address(
                self.state.registers[instruction.op_b as int].value.wrapping_add(instruction.op_c),
            ),
        ensures
            ({
                let after = self.executed(instruction).0.state;
                let found = self.looked_up(at).state;
                let left = MemoryRecord {
                    value: found_in(self.state, at),
                    shard: self.state.current_shard,
                    timestamp: self.state.clk,
                };
                &&& after.stride == found.stride
                &&& after.prefetch == found.prefetch.refreshed(at, left)
            }),
    {
        let machine = self.with(self.state.predicted());
        let rs1 = Register::from_u32(instruction.op_b);
        let rd = Register::from_u32(instruction.op_a);
        Register::lemma_number(instruction.op_b);
        machine.state.lemma_used(rs1, 2);
        let fetched = machine.with(machine.state.register_used(rs1));
        assert(fetched.sound());
        reveal(MachineView::load_operands);
        let (read, addr, word) = machine.load_operands(instruction);
        fetched.state.law_times();
        fetched.law_read_word(at, fetched.state.current_shard, fetched.state.clk, true);
        self.lemma_same_buffer(fetched, at);
        assert(read.state.regular(1));
        read.state.lemma_written(rd, loaded(instruction.opcode, word, addr), 1);
        lemma_record_of(self.state, at);
        lemma_record_of(fetched.state, at);
    }

    proof fn lemma_store_buffer(self, instruction: InstructionView, at: u32)
        requires
            instruction.opcode.is_store(),
            instruction.op_a < 32,
            instruction.op_b < 32,
            self.state.regular(2),
            self.sound(),
            self.executed(instruction).1 is Ok,
            at == word_address(
                self.state.registers[instruction.op_b as int].value.wrapping_add(instruction.op_c),
            ),
        ensures
            ({
                let after = self.executed(instruction).0.state;
                let looked = self.looked_at(at).state;
                &&& after.accesses == self.state.accesses.recorded(at)
                &&& record_of(after, at) is Some
                &&& after.prefetch == looked.prefetch.refreshed(at, record_of(after, at).unwrap())
            }),
    {
        let machine = self.with(self.state.predicted());
        assert(machine.sound());
        machine.lemma_sources(instruction, 2);
        machine.lemma_store(instruction, 2);
        let fetched = machine.with(machine.state.source_values(instruction).0);
        let (looked, a, addr, word) = machine.store_operands(instruction);
        assert(looked == fetched.looked_at(at)) by {
            reveal(MachineView::store_operands);
        }
        fetched.law_ahead(at);
        fetched.lemma_look_frame(at);
        self.lemma_same_buffer(fetched, at);
        let value = stored(instruction.opcode, word, a, addr);
        looked.state.law_times();
        looked.law_write_word(at, value, looked.state.current_shard, looked.state.clk, true);
        lemma_record_of(self.executed(instruction).0.state, at);
        lemma_record_of(
            looked.wrote(at, value, looked.state.current_shard, looked.state.clk, true).state,
            at,
        );
        fetched.lemma_look_accesses(at);
    }

    proof fn lemma_look_accesses(self, addr: u32)
        ensures
            self.looked_at(addr).state.accesses == self.state.accesses.recorded(addr),
    {
        let followed = self.state.accesses.recorded(addr);
        let noted = StateView { accesses: followed, ..self.state };
        let line = region_of(addr).wrapping_add(SPATIAL_REGION_SIZE);
        match self.state.record_at(addr) {
            Some(record) => {
                let words = followed.predictions(addr);
                let start = noted.buffered(addr, record);
                start.lemma_same_all(start, words, words.len());
                start.all_prefetched(words, words.len()).lemma_same_line(
                    start.all_prefetched(words, words.len()),
                    line,
                    16,
                );
            },
            None => {
                noted.lemma_same_line(noted, line, 16);
            },
        }
    }
}

impl StateView {
    proof fn lemma_same_all(self, other: StateView, addrs: Seq<u32>, count: nat)
        requires
            other.pages == self.pages,
            other.memory == self.memory,
            other.prefetch == self.prefetch,
        ensures
            ({
                let after = self.all_prefetched(addrs, count);
                let other_after = other.all_prefetched(addrs, count);
                &&& other_after.prefetch == after.prefetch
                &&& after == (StateView { prefetch: after.prefetch, ..self })
                &&& other_after == (StateView { prefetch: other_after.prefetch, ..other })
            }),
        decreases count,
    {
        if count > 0 {
            self.lemma_same_all(other, addrs, (count - 1) as nat);
            let before = self.all_prefetched(addrs, (count - 1) as nat);
            let other_before = other.all_prefetched(addrs, (count - 1) as nat);
            assert(other_before.record_at(addrs[count - 1]) == before.record_at(addrs[count - 1]));
        }
    }

    proof fn lemma_same_line(self, other: StateView, line: u32, count: nat)
        requires
            other.pages == self.pages,
            other.memory == self.memory,
            other.prefetch == self.prefetch,
        ensures
            ({
                let after = self.line_prefetched(line, count);
                let other_after = other.line_prefetched(line, count);
                &&& other_after.prefetch == after.prefetch
                &&& after == (StateView { prefetch: after.prefetch, ..self })
                &&& other_after == (StateView { prefetch: other_after.prefetch, ..other })
            }),
        decreases count,
    {
        if count > 0 {
            self.lemma_same_line(other, line, (count - 1) as nat);
            let before = self.line_prefetched(line, (count - 1) as nat);
            let other_before = other.line_prefetched(line, (count - 1) as nat);
            let addr = line.wrapping_add(((count - 1) * 4) as u32);
            assert(other_before.record_at(addr) == before.record_at(addr));
        }
    }
}

} // verus!
