//! The RV32IM instruction set as the executor sees it: opcodes, registers, decoded instructions
//! and programs.
use vstd::prelude::*;

use crate::table::Table;

verus! {

/// The operations of the machine.
#[derive(Clone, Copy, PartialEq, Eq, Structural, Debug, Hash)]
pub enum Opcode {
    ADD,
    SUB,
    XOR,
    OR,
    AND,
    SLL,
    SRL,
    SRA,
    SLT,
    SLTU,
    LB,
    LH,
    LW,
    LBU,
    LHU,
    SB,
    SH,
    SW,
    BEQ,
    BNE,
    BLT,
    BGE,
    BLTU,
    BGEU,
    JAL,
    JALR,
    AUIPC,
    ECALL,
    EBREAK,
    MUL,
    MULH,
    MULHU,
    MULHSU,
    DIV,
    DIVU,
    REM,
    REMU,
    UNIMP,
}

impl Opcode {
    pub open spec fn spec_is_alu(self) -> bool {
        matches!(self,
            Opcode::ADD | Opcode::SUB | Opcode::XOR | Opcode::OR | Opcode::AND | Opcode::SLL
            | Opcode::SRL | Opcode::SRA | Opcode::SLT | Opcode::SLTU | Opcode::MUL | Opcode::MULH
            | Opcode::MULHU | Opcode::MULHSU | Opcode::DIV | Opcode::DIVU | Opcode::REM
            | Opcode::REMU)
    }

    /// Whether the operation combines two operands into a register.
    #[verifier::when_used_as_spec(spec_is_alu)]
    pub fn is_alu(self) -> (yes: bool)
        ensures
            yes == self.spec_is_alu(),
    {
        matches!(self,
            Opcode::ADD | Opcode::SUB | Opcode::XOR | Opcode::OR | Opcode::AND | Opcode::SLL
            | Opcode::SRL | Opcode::SRA | Opcode::SLT | Opcode::SLTU | Opcode::MUL | Opcode::MULH
            | Opcode::MULHU | Opcode::MULHSU | Opcode::DIV | Opcode::DIVU | Opcode::REM
            | Opcode::REMU)
    }

    pub open spec fn spec_is_load(self) -> bool {
        matches!(self, Opcode::LB | Opcode::LH | Opcode::LW | Opcode::LBU | Opcode::LHU)
    }

    /// Whether the operation reads memory into a register.
    #[verifier::when_used_as_spec(spec_is_load)]
    pub fn is_load(self) -> (yes: bool)
        ensures
            yes == self.spec_is_load(),
    {
        matches!(self, Opcode::LB | Opcode::LH | Opcode::LW | Opcode::LBU | Opcode::LHU)
    }

    pub open spec fn spec_is_store(self) -> bool {
        matches!(self, Opcode::SB | Opcode::SH | Opcode::SW)
    }

    /// Whether the operation writes a register to memory.
    #[verifier::when_used_as_spec(spec_is_store)]
    pub fn is_store(self) -> (yes: bool)
        ensures
            yes == self.spec_is_store(),
    {
        matches!(self, Opcode::SB | Opcode::SH | Opcode::SW)
    }

    pub open spec fn spec_is_branch(self) -> bool {
        matches!(self,
            Opcode::BEQ | Opcode::BNE | Opcode::BLT | Opcode::BGE | Opcode::BLTU | Opcode::BGEU)
    }

    /// Whether the operation is a conditional branch.
    #[verifier::when_used_as_spec(spec_is_branch)]
    pub fn is_branch(self) -> (yes: bool)
        ensures
            yes == self.spec_is_branch(),
    {
        matches!(self,
            Opcode::BEQ | Opcode::BNE | Opcode::BLT | Opcode::BGE | Opcode::BLTU | Opcode::BGEU)
    }
}

/// The registers of the machine.
#[derive(Clone, Copy, PartialEq, Eq, Structural, Debug, Hash)]
pub enum Register {
    X0,
    X1,
    X2,
    X3,
    X4,
    X5,
    X6,
    X7,
    X8,
    X9,
    X10,
    X11,
    X12,
    X13,
    X14,
    X15,
    X16,
    X17,
    X18,
    X19,
    X20,
    X21,
    X22,
    X23,
    X24,
    X25,
    X26,
    X27,
    X28,
    X29,
    X30,
    X31,
}

impl Register {
    pub open spec fn spec_from_u32(value: u32) -> Register {
        match value {
            0 => Register::X0,
            1 => Register::X1,
            2 => Register::X2,
            3 => Register::X3,
            4 => Register::X4,
            5 => Register::X5,
            6 => Register::X6,
            7 => Register::X7,
            8 => Register::X8,
            9 => Register::X9,
            10 => Register::X10,
            11 => Register::X11,
            12 => Register::X12,
            13 => Register::X13,
            14 => Register::X14,
            15 => Register::X15,
            16 => Register::X16,
            17 => Register::X17,
            18 => Register::X18,
            19 => Register::X19,
            20 => Register::X20,
            21 => Register::X21,
            22 => Register::X22,
            23 => Register::X23,
            24 => Register::X24,
            25 => Register::X25,
            26 => Register::X26,
            27 => Register::X27,
            28 => Register::X28,
            29 => Register::X29,
            30 => Register::X30,
            _ => Register::X31,
        }
    }

    /// The register with the given number.
    #[verifier::when_used_as_spec(spec_from_u32)]
    pub fn from_u32(value: u32) -> (register: Register)
        requires
            value < 32,
        ensures
            register == Register::spec_from_u32(value),
            register as u32 == value,
    {
        match value {
            0 => Register::X0,
            1 => Register::X1,
            2 => Register::X2,
            3 => Register::X3,
            4 => Register::X4,
            5 => Register::X5,
            6 => Register::X6,
            7 => Register::X7,
            8 => Register::X8,
            9 => Register::X9,
            10 => Register::X10,
            11 => Register::X11,
            12 => Register::X12,
            13 => Register::X13,
            14 => Register::X14,
            15 => Register::X15,
            16 => Register::X16,
            17 => Register::X17,
            18 => Register::X18,
            19 => Register::X19,
            20 => Register::X20,
            21 => Register::X21,
            22 => Register::X22,
            23 => Register::X23,
            24 => Register::X24,
            25 => Register::X25,
            26 => Register::X26,
            27 => Register::X27,
            28 => Register::X28,
            29 => Register::X29,
            30 => Register::X30,
            _ => Register::X31,
        }
    }

    /// A register has the number that it is found by.
    pub proof fn lemma_number(value: u32)
        requires
            value < 32,
        ensures
            Register::from_u32(value) as u32 == value,
    {
    }
}

/// What an instruction consists of.
pub ghost struct InstructionView {
    pub opcode: Opcode,
    pub op_a: u32,
    pub op_b: u32,
    pub op_c: u32,
    pub imm_b: bool,
    pub imm_c: bool,
}

impl InstructionView {
    /// Every operand that the operation takes as a register number is one.
    pub open spec fn decodable(self) -> bool {
        if self.opcode.is_alu() {
            &&& self.op_a < 32
            &&& !self.imm_c ==> self.op_b < 32 && self.op_c < 32
            &&& self.imm_c && !self.imm_b ==> self.op_b < 32
        } else if self.opcode.is_load() || self.opcode.is_store() || self.opcode.is_branch()
            || self.opcode == Opcode::JALR {
            self.op_a < 32 && self.op_b < 32
        } else if self.opcode == Opcode::JAL || self.opcode == Opcode::AUIPC {
            self.op_a < 32
        } else {
            true
        }
    }
}

/// A decoded instruction.
///
/// Operand `a` is the destination, or the first source of stores and branches; `b` and `c` are
/// register numbers or, where `imm_b` or `imm_c` says so, immediate values.
#[derive(Clone, Copy, PartialEq, Eq, Structural, Debug)]
pub struct Instruction {
    opcode: Opcode,
    op_a: u32,
    op_b: u32,
    op_c: u32,
    imm_b: bool,
    imm_c: bool,
}

impl View for Instruction {
    type V = InstructionView;

    closed spec fn view(&self) -> InstructionView {
        InstructionView {
            opcode: self.opcode,
            op_a: self.op_a,
            op_b: self.op_b,
            op_c: self.op_c,
            imm_b: self.imm_b,
            imm_c: self.imm_c,
        }
    }
}

impl Instruction {
    #[verifier::type_invariant]
    pub open spec fn well_formed(&self) -> bool {
        self@.decodable()
    }

    /// An instruction with the given operation and operands.
    pub fn new(opcode: Opcode, op_a: u32, op_b: u32, op_c: u32, imm_b: bool, imm_c: bool) -> (
        instruction: Instruction)
        requires
            (InstructionView { opcode, op_a, op_b, op_c, imm_b, imm_c }).decodable(),
        ensures
            instruction@ == (InstructionView { opcode, op_a, op_b, op_c, imm_b, imm_c }),
    {
        Instruction { opcode, op_a, op_b, op_c, imm_b, imm_c }
    }

    pub fn opcode(&self) -> (opcode: Opcode)
        ensures
            opcode == self@.opcode,
    {
        self.opcode
    }

    pub fn op_a(&self) -> (operand: u32)
        ensures
            operand == self@.op_a,
    {
        self.op_a
    }

    pub fn op_b(&self) -> (operand: u32)
        ensures
            operand == self@.op_b,
    {
        self.op_b
    }

    pub fn op_c(&self) -> (operand: u32)
        ensures
            operand == self@.op_c,
    {
        self.op_c
    }

    pub fn imm_b(&self) -> (immediate: bool)
        ensures
            immediate == self@.imm_b,
    {
        self.imm_b
    }

    pub fn imm_c(&self) -> (immediate: bool)
        ensures
            immediate == self@.imm_c,
    {
        self.imm_c
    }

    /// Destination and two source registers.
    pub fn r_type(&self) -> (operands: (Register, Register, Register))
        requires
            self@.op_a < 32,
            self@.op_b < 32,
            self@.op_c < 32,
        ensures
            operands.0 == Register::from_u32(self@.op_a),
            operands.1 == Register::from_u32(self@.op_b),
            operands.2 == Register::from_u32(self@.op_c),
    {
        (
            Register::from_u32(self.op_a),
            Register::from_u32(self.op_b),
            Register::from_u32(self.op_c),
        )
    }

    /// Destination, source register and immediate.
    pub fn i_type(&self) -> (operands: (Register, Register, u32))
        requires
            self@.op_a < 32,
            self@.op_b < 32,
        ensures
            operands.0 == Register::from_u32(self@.op_a),
            operands.1 == Register::from_u32(self@.op_b),
            operands.2 == self@.op_c,
    {
        (Register::from_u32(self.op_a), Register::from_u32(self.op_b), self.op_c)
    }

    /// Two source registers and immediate.
    pub fn s_type(&self) -> (operands: (Register, Register, u32))
        requires
            self@.op_a < 32,
            self@.op_b < 32,
        ensures
            operands.0 == Register::from_u32(self@.op_a),
            operands.1 == Register::from_u32(self@.op_b),
            operands.2 == self@.op_c,
    {
        (Register::from_u32(self.op_a), Register::from_u32(self.op_b), self.op_c)
    }

    /// Two compared registers and the distance to the target.
    pub fn b_type(&self) -> (operands: (Register, Register, u32))
        requires
            self@.op_a < 32,
            self@.op_b < 32,
        ensures
            operands.0 == Register::from_u32(self@.op_a),
            operands.1 == Register::from_u32(self@.op_b),
            operands.2 == self@.op_c,
    {
        (Register::from_u32(self.op_a), Register::from_u32(self.op_b), self.op_c)
    }

    /// Destination and the distance to the target.
    pub fn j_type(&self) -> (operands: (Register, u32))
        requires
            self@.op_a < 32,
        ensures
            operands.0 == Register::from_u32(self@.op_a),
            operands.1 == self@.op_b,
    {
        (Register::from_u32(self.op_a), self.op_b)
    }

    /// Destination and upper immediate.
    pub fn u_type(&self) -> (operands: (Register, u32))
        requires
            self@.op_a < 32,
        ensures
            operands.0 == Register::from_u32(self@.op_a),
            operands.1 == self@.op_b,
    {
        (Register::from_u32(self.op_a), self.op_b)
    }
}

impl Default for Instruction {
    /// The instruction that does not exist.
    fn default() -> (instruction: Instruction)
        ensures
            instruction@ == (InstructionView {
                opcode: Opcode::UNIMP,
                op_a: 0,
                op_b: 0,
                op_c: 0,
                imm_b: false,
                imm_c: false,
            }),
    {
        Instruction { opcode: Opcode::UNIMP, op_a: 0, op_b: 0, op_c: 0, imm_b: false, imm_c: false }
    }
}

/// A program: its instructions, where they lie and start, and the memory that it begins with.
pub struct Program {
    /// The instructions, one for each word from `pc_base` on.
    pub instructions: Vec<Instruction>,
    /// The address of the first instruction to execute.
    pub pc_start: u32,
    /// The address of the first instruction.
    pub pc_base: u32,
    /// The words that memory holds before the first instruction.
    pub memory_image: Table<u32>,
}

impl Program {
    /// A program with an empty memory image.
    pub fn new(instructions: Vec<Instruction>, pc_start: u32, pc_base: u32) -> (program: Program)
        ensures
            program.instructions == instructions,
            program.pc_start == pc_start,
            program.pc_base == pc_base,
            program.memory_image@ == Map::<u32, u32>::empty(),
    {
        Program { instructions, pc_start, pc_base, memory_image: Table::new() }
    }

    /// The position of the instruction at `pc`.
    pub open spec fn position(&self, pc: u32) -> int {
        pc.wrapping_sub(self.pc_base) as int / 4
    }

    /// The program has an instruction at `pc`.
    pub open spec fn has_instruction(&self, pc: u32) -> bool {
        self.position(pc) < self.instructions@.len()
    }

    /// The program ends before the instruction at `pc`: at address zero and outside its own words.
    pub open spec fn ends_at(&self, pc: u32) -> bool {
        ||| pc == 0
        ||| pc.wrapping_sub(self.pc_base) >= (4 * self.instructions@.len()) % 0x1_0000_0000
    }

    /// Whether the program ends before the instruction at `pc`.
    pub fn is_end(&self, pc: u32) -> (end: bool)
        ensures
            end == self.ends_at(pc),
            !end ==> self.has_instruction(pc),
    {
        let count: u64 = self.instructions.len() as u64;
        let size: u32 = ((count % 0x4000_0000) * 4) as u32;
        assert(size == (4 * count) % 0x1_0000_0000);
        pc == 0 || pc.wrapping_sub(self.pc_base) >= size
    }
}

/// Every operation is of one kind: it combines operands, loads, stores, branches, or is one of the six
/// others.
pub proof fn law_kinds(opcode: Opcode)
    ensures
        opcode.is_alu() <==> opcode == Opcode::ADD || opcode == Opcode::SUB || opcode == Opcode::XOR
            || opcode == Opcode::OR || opcode == Opcode::AND || opcode == Opcode::SLL || opcode
            == Opcode::SRL || opcode == Opcode::SRA || opcode == Opcode::SLT || opcode
            == Opcode::SLTU || opcode == Opcode::MUL || opcode == Opcode::MULH || opcode
            == Opcode::MULHU || opcode == Opcode::MULHSU || opcode == Opcode::DIV || opcode
            == Opcode::DIVU || opcode == Opcode::REM || opcode == Opcode::REMU,
        opcode.is_load() <==> opcode == Opcode::LB || opcode == Opcode::LBU || opcode == Opcode::LH
            || opcode == Opcode::LHU || opcode == Opcode::LW,
        opcode.is_store() <==> opcode == Opcode::SB || opcode == Opcode::SH || opcode == Opcode::SW,
        opcode.is_branch() <==> opcode == Opcode::BEQ || opcode == Opcode::BNE || opcode
            == Opcode::BLT || opcode == Opcode::BGE || opcode == Opcode::BLTU || opcode
            == Opcode::BGEU,
        !opcode.is_alu() && !opcode.is_load() && !opcode.is_store() && !opcode.is_branch() <==> opcode
            == Opcode::JAL || opcode == Opcode::JALR || opcode == Opcode::AUIPC || opcode
            == Opcode::ECALL || opcode == Opcode::EBREAK || opcode == Opcode::UNIMP,
{
}

impl Program {
    /// The instruction at an address is as many words behind the first one as the address is behind the
    /// start of the program, addresses being counted around. A program ends at address zero, and where
    /// the address is not within its words, up to multiples of 2^32 in its size.
    pub proof fn law_addresses(&self, pc: u32)
        ensures
            ({
                let distance = (pc - self.pc_base) % 0x1_0000_0000;
                let size = self.instructions@.len() as int;
                &&& self.position(pc) == distance / 4
                &&& self.has_instruction(pc) <==> distance / 4 < size
                &&& self.ends_at(pc) <==> pc == 0 || distance >= (4 * size) % 0x1_0000_0000
                &&& !self.ends_at(pc) ==> self.has_instruction(pc)
            }),
    {
    }
}

} // verus!
