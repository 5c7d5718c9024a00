//! The errors of execution and their messages.
use vstd::prelude::*;
use vstd::string::*;

use crate::isa::Opcode;

verus! {

/// Errors that the executor can give back.
#[derive(Clone, Copy, PartialEq, Eq, Structural, Debug)]
pub enum ExecutionError {
    /// The execution failed with a non-zero exit code.
    HaltWithNonZeroExitCode(u32),
    /// The execution failed with an invalid memory access.
    InvalidMemoryAccess(Opcode, u32),
    /// The execution failed with an unimplemented system call.
    UnsupportedSyscall(u32),
    /// The execution failed with a breakpoint.
    Breakpoint(),
    /// The execution failed with an exceeded cycle limit.
    ExceededCycleLimit(u64),
    /// The execution failed because the system call was called in unconstrained mode.
    InvalidSyscallUsage(u64),
    /// The execution failed with an unimplemented feature.
    Unimplemented(),
    /// The program ended in unconstrained mode.
    EndInUnconstrained(),
}

/// The character of a decimal digit.
pub open spec fn digit_char(digit: int) -> char {
    if digit == 0 {
        '0'
    } else if digit == 1 {
        '1'
    } else if digit == 2 {
        '2'
    } else if digit == 3 {
        '3'
    } else if digit == 4 {
        '4'
    } else if digit == 5 {
        '5'
    } else if digit == 6 {
        '6'
    } else if digit == 7 {
        '7'
    } else if digit == 8 {
        '8'
    } else {
        '9'
    }
}

/// A number in decimal digits, without leading zeros.
pub open spec fn decimal(number: nat) -> Seq<char>
    decreases number,
{
    if number < 10 {
        seq![digit_char(number as int)]
    } else {
        decimal(number / 10).push(digit_char(number as int % 10))
    }
}

/// The name of an operation in assembly.
pub open spec fn mnemonic_text(opcode: Opcode) -> Seq<char> {
    match opcode {
        Opcode::ADD => "add"@,
        Opcode::SUB => "sub"@,
        Opcode::XOR => "xor"@,
        Opcode::OR => "or"@,
        Opcode::AND => "and"@,
        Opcode::SLL => "sll"@,
        Opcode::SRL => "srl"@,
        Opcode::SRA => "sra"@,
        Opcode::SLT => "slt"@,
        Opcode::SLTU => "sltu"@,
        Opcode::LB => "lb"@,
        Opcode::LH => "lh"@,
        Opcode::LW => "lw"@,
        Opcode::LBU => "lbu"@,
        Opcode::LHU => "lhu"@,
        Opcode::SB => "sb"@,
        Opcode::SH => "sh"@,
        Opcode::SW => "sw"@,
        Opcode::BEQ => "beq"@,
        Opcode::BNE => "bne"@,
        Opcode::BLT => "blt"@,
        Opcode::BGE => "bge"@,
        Opcode::BLTU => "bltu"@,
        Opcode::BGEU => "bgeu"@,
        Opcode::JAL => "jal"@,
        Opcode::JALR => "jalr"@,
        Opcode::AUIPC => "auipc"@,
        Opcode::ECALL => "ecall"@,
        Opcode::EBREAK => "ebreak"@,
        Opcode::MUL => "mul"@,
        Opcode::MULH => "mulh"@,
        Opcode::MULHU => "mulhu"@,
        Opcode::MULHSU => "mulhsu"@,
        Opcode::DIV => "div"@,
        Opcode::DIVU => "divu"@,
        Opcode::REM => "rem"@,
        Opcode::REMU => "remu"@,
        Opcode::UNIMP => "unimp"@,
    }
}

impl ExecutionError {
    /// The message of an error.
    pub open spec fn text(self) -> Seq<char> {
        match self {
            ExecutionError::HaltWithNonZeroExitCode(code) => "execution failed with exit code "@
                + decimal(code as nat),
            ExecutionError::InvalidMemoryAccess(opcode, addr) =>
                "invalid memory access for opcode "@ + mnemonic_text(opcode) + " and address "@
                    + decimal(addr as nat),
            ExecutionError::UnsupportedSyscall(id) => "unimplemented syscall "@ + decimal(
                id as nat,
            ),
            ExecutionError::Breakpoint() => "breakpoint encountered"@,
            ExecutionError::ExceededCycleLimit(limit) => "exceeded cycle limit of "@ + decimal(
                limit as nat,
            ),
            ExecutionError::InvalidSyscallUsage(_) => "syscall called in unconstrained mode"@,
            ExecutionError::Unimplemented() => "got unimplemented as opcode"@,
            ExecutionError::EndInUnconstrained() => "program ended in unconstrained mode"@,
        }
    }

    /// The message of an error.
    pub fn message(&self) -> (message: String)
        ensures
            message@ == self.text(),
    {
        match self {
            ExecutionError::HaltWithNonZeroExitCode(code) => String::from_str(
                "execution failed with exit code ",
            ).concat(render(*code as u64).as_str()),
            ExecutionError::InvalidMemoryAccess(opcode, addr) => String::from_str(
                "invalid memory access for opcode ",
            ).concat(mnemonic(*opcode)).concat(" and address ").concat(
                render(*addr as u64).as_str(),
            ),
            ExecutionError::UnsupportedSyscall(id) => String::from_str(
                "unimplemented syscall ",
            ).concat(render(*id as u64).as_str()),
            ExecutionError::Breakpoint() => String::from_str("breakpoint encountered"),
            ExecutionError::ExceededCycleLimit(limit) => String::from_str(
                "exceeded cycle limit of ",
            ).concat(render(*limit).as_str()),
            ExecutionError::InvalidSyscallUsage(_) => String::from_str(
                "syscall called in unconstrained mode",
            ),
            ExecutionError::Unimplemented() => String::from_str("got unimplemented as opcode"),
            ExecutionError::EndInUnconstrained() => String::from_str(
                "program ended in unconstrained mode",
            ),
        }
    }
}

/// The name of an operation in assembly.
pub fn mnemonic(opcode: Opcode) -> (name: &'static str)
    ensures
        name@ == mnemonic_text(opcode),
{
    match opcode {
        Opcode::ADD => "add",
        Opcode::SUB => "sub",
        Opcode::XOR => "xor",
        Opcode::OR => "or",
        Opcode::AND => "and",
        Opcode::SLL => "sll",
        Opcode::SRL => "srl",
        Opcode::SRA => "sra",
        Opcode::SLT => "slt",
        Opcode::SLTU => "sltu",
        Opcode::LB => "lb",
        Opcode::LH => "lh",
        Opcode::LW => "lw",
        Opcode::LBU => "lbu",
        Opcode::LHU => "lhu",
        Opcode::SB => "sb",
        Opcode::SH => "sh",
        Opcode::SW => "sw",
        Opcode::BEQ => "beq",
        Opcode::BNE => "bne",
        Opcode::BLT => "blt",
        Opcode::BGE => "bge",
        Opcode::BLTU => "bltu",
        Opcode::BGEU => "bgeu",
        Opcode::JAL => "jal",
        Opcode::JALR => "jalr",
        Opcode::AUIPC => "auipc",
        Opcode::ECALL => "ecall",
        Opcode::EBREAK => "ebreak",
        Opcode::MUL => "mul",
        Opcode::MULH => "mulh",
        Opcode::MULHU => "mulhu",
        Opcode::MULHSU => "mulhsu",
        Opcode::DIV => "div",
        Opcode::DIVU => "divu",
        Opcode::REM => "rem",
        Opcode::REMU => "remu",
        Opcode::UNIMP => "unimp",
    }
}

fn digit(value: u64) -> (text: &'static str)
    requires
        value < 10,
    ensures
        text@ == seq![digit_char(value as int)],
{
    proof {
        reveal_strlit("0");
        reveal_strlit("1");
        reveal_strlit("2");
        reveal_strlit("3");
        reveal_strlit("4");
        reveal_strlit("5");
        reveal_strlit("6");
        reveal_strlit("7");
        reveal_strlit("8");
        reveal_strlit("9");
    }
    let text = match value {
        0 => "0",
        1 => "1",
        2 => "2",
        3 => "3",
        4 => "4",
        5 => "5",
        6 => "6",
        7 => "7",
        8 => "8",
        _ => "9",
    };
    assert(text@ =~= seq![digit_char(value as int)]);
    text
}

/// A number in decimal digits.
fn render(number: u64) -> (text: String)
    ensures
        text@ == decimal(number as nat),
    decreases number,
{
    if number < 10 {
        String::from_str(digit(number))
    } else {
        let text = render(number / 10).concat(digit(number % 10));
        assert(text@ =~= decimal(number as nat));
        text
    }
}

/// The number that a row of decimal digits stands for.
pub open spec fn number_of(digits: Seq<char>) -> int
    decreases digits.len(),
{
    if digits.len() == 0 {
        0
    } else {
        10 * number_of(digits.drop_last()) + (digits.last() as int - '0' as int)
    }
}

/// A number is written in the digits from zero to nine, stands for itself, and has no zero in front unless
/// it is zero.
pub proof fn law_decimal(number: nat)
    ensures
        number_of(decimal(number)) == number,
        decimal(number).len() > 0,
        forall|i: int|
            0 <= i < decimal(number).len() ==> '0' <= #[trigger] decimal(number)[i] <= '9',
        number > 0 ==> decimal(number)[0] != '0',
        number == 0 ==> decimal(number).len() == 1,
    decreases number,
{
    let text = decimal(number);
    if number < 10 {
        assert(text.drop_last() =~= Seq::<char>::empty());
        assert(number_of(text.drop_last()) == 0);
        assert(text.last() == digit_char(number as int));
    } else {
        law_decimal(number / 10);
        let start = decimal(number / 10);
        assert(text.drop_last() =~= start);
        assert(text.last() == digit_char(number as int % 10));
        assert forall|i: int| 0 <= i < text.len() implies '0' <= #[trigger] text[i] <= '9' by {
            if i < start.len() {
                assert(text[i] == start[i]);
            }
        }
        assert(text[0] == start[0]);
    }
}

impl ExecutionError {
    /// Each error has its own message, with its number in decimal digits where it has one that matters.
    pub proof fn law_messages(code: u32, opcode: Opcode, addr: u32, limit: u64)
        ensures
            ExecutionError::HaltWithNonZeroExitCode(code).text() == "execution failed with exit code "@
                + decimal(code as nat),
            ExecutionError::InvalidMemoryAccess(opcode, addr).text()
                == "invalid memory access for opcode "@ + mnemonic_text(opcode) + " and address "@
                + decimal(addr as nat),
            ExecutionError::UnsupportedSyscall(code).text() == "unimplemented syscall "@ + decimal(
                code as nat,
            ),
            ExecutionError::Breakpoint().text() == "breakpoint encountered"@,
            ExecutionError::ExceededCycleLimit(limit).text() == "exceeded cycle limit of "@ + decimal(
                limit as nat,
            ),
            ExecutionError::InvalidSyscallUsage(limit).text()
                == "syscall called in unconstrained mode"@,
            ExecutionError::Unimplemented().text() == "got unimplemented as opcode"@,
            ExecutionError::EndInUnconstrained().text() == "program ended in unconstrained mode"@,
    {
    }
}

/// Every operation has its own name.
pub proof fn law_mnemonics()
    ensures
        mnemonic_text(Opcode::ADD) == "add"@,
        mnemonic_text(Opcode::SUB) == "sub"@,
        mnemonic_text(Opcode::XOR) == "xor"@,
        mnemonic_text(Opcode::OR) == "or"@,
        mnemonic_text(Opcode::AND) == "and"@,
        mnemonic_text(Opcode::SLL) == "sll"@,
        mnemonic_text(Opcode::SRL) == "srl"@,
        mnemonic_text(Opcode::SRA) == "sra"@,
        mnemonic_text(Opcode::SLT) == "slt"@,
        mnemonic_text(Opcode::SLTU) == "sltu"@,
        mnemonic_text(Opcode::LB) == "lb"@,
        mnemonic_text(Opcode::LH) == "lh"@,
        mnemonic_text(Opcode::LW) == "lw"@,
        mnemonic_text(Opcode::LBU) == "lbu"@,
        mnemonic_text(Opcode::LHU) == "lhu"@,
        mnemonic_text(Opcode::SB) == "sb"@,
        mnemonic_text(Opcode::SH) == "sh"@,
        mnemonic_text(Opcode::SW) == "sw"@,
        mnemonic_text(Opcode::BEQ) == "beq"@,
        mnemonic_text(Opcode::BNE) == "bne"@,
        mnemonic_text(Opcode::BLT) == "blt"@,
        mnemonic_text(Opcode::BGE) == "bge"@,
        mnemonic_text(Opcode::BLTU) == "bltu"@,
        mnemonic_text(Opcode::BGEU) == "bgeu"@,
        mnemonic_text(Opcode::JAL) == "jal"@,
        mnemonic_text(Opcode::JALR) == "jalr"@,
        mnemonic_text(Opcode::AUIPC) == "auipc"@,
        mnemonic_text(Opcode::ECALL) == "ecall"@,
        mnemonic_text(Opcode::EBREAK) == "ebreak"@,
        mnemonic_text(Opcode::MUL) == "mul"@,
        mnemonic_text(Opcode::MULH) == "mulh"@,
        mnemonic_text(Opcode::MULHU) == "mulhu"@,
        mnemonic_text(Opcode::MULHSU) == "mulhsu"@,
        mnemonic_text(Opcode::DIV) == "div"@,
        mnemonic_text(Opcode::DIVU) == "divu"@,
        mnemonic_text(Opcode::REM) == "rem"@,
        mnemonic_text(Opcode::REMU) == "remu"@,
        mnemonic_text(Opcode::UNIMP) == "unimp"@,
{
}

} // verus!
