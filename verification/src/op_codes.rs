//! The opcode table: mnemonics, 5-bit wire codes and operand-shape rules.
//!
//! All jump mnemonics share the wire code 12 and are distinguished by a 3-bit
//! jump sub-code carried in the [`OpCode::JMP`] variant.

use vstd::prelude::*;

verus! {

/// The jump sub-code: distinguishes the jump family members, which all share
/// wire code 12.
#[derive(Clone, Copy, Debug, PartialEq, Eq, Structural)]
pub enum JCode {
    JMP,
    JE,
    JH,
    JL,
    JLE,
    JHE,
}

/// A 5-bit instruction selector.
#[derive(Clone, Copy, Debug, PartialEq, Eq, Structural)]
pub enum OpCode {
    ADD,
    MUL,
    SUB,
    DIV,
    MOD,
    NEG,
    SHL,
    SHR,
    AND,
    OR,
    XOR,
    NOT,
    /// The jump family; the payload selects the comparison.
    JMP(JCode),
    INT,
    PUSH,
    POP,
    RET,
    CALL,
    MOV,
    READ,
    WRITE,
    CMP,
    CLEAR,
    HALT,
    TRACE,
    DUP,
    SWAP,
}

/// The 3-bit wire value of a jump sub-code.
pub open spec fn spec_jcode_value(j: JCode) -> u8 {
    match j {
        JCode::JMP => 0,
        JCode::JE => 1,
        JCode::JH => 2,
        JCode::JL => 3,
        JCode::JLE => 4,
        JCode::JHE => 5,
    }
}

/// The 5-bit wire value of an opcode.
pub open spec fn spec_op_value(op: OpCode) -> u8 {
    match op {
        OpCode::ADD => 0,
        OpCode::MUL => 1,
        OpCode::SUB => 2,
        OpCode::DIV => 3,
        OpCode::MOD => 4,
        OpCode::NEG => 5,
        OpCode::SHL => 6,
        OpCode::SHR => 7,
        OpCode::AND => 8,
        OpCode::OR => 9,
        OpCode::XOR => 10,
        OpCode::NOT => 11,
        OpCode::JMP(_) => 12,
        OpCode::INT => 13,
        OpCode::PUSH => 14,
        OpCode::POP => 15,
        OpCode::RET => 16,
        OpCode::CALL => 17,
        OpCode::MOV => 18,
        OpCode::READ => 19,
        OpCode::WRITE => 20,
        OpCode::CMP => 21,
        OpCode::CLEAR => 22,
        OpCode::HALT => 23,
        OpCode::TRACE => 24,
        OpCode::DUP => 25,
        OpCode::SWAP => 26,
    }
}

/// The opcode named by the mnemonic `s`, if any.
pub open spec fn spec_op_of(s: Seq<char>) -> Option<OpCode> {
    if s.len() == 3 && s[0] == 'a' && s[1] == 'd' && s[2] == 'd' {
        Some(OpCode::ADD)
    } else if s.len() == 3 && s[0] == 'm' && s[1] == 'u' && s[2] == 'l' {
        Some(OpCode::MUL)
    } else if s.len() == 3 && s[0] == 's' && s[1] == 'u' && s[2] == 'b' {
        Some(OpCode::SUB)
    } else if s.len() == 3 && s[0] == 'd' && s[1] == 'i' && s[2] == 'v' {
        Some(OpCode::DIV)
    } else if s.len() == 3 && s[0] == 'm' && s[1] == 'o' && s[2] == 'd' {
        Some(OpCode::MOD)
    } else if s.len() == 3 && s[0] == 'n' && s[1] == 'e' && s[2] == 'g' {
        Some(OpCode::NEG)
    } else if s.len() == 3 && s[0] == 's' && s[1] == 'h' && s[2] == 'l' {
        Some(OpCode::SHL)
    } else if s.len() == 3 && s[0] == 's' && s[1] == 'h' && s[2] == 'r' {
        Some(OpCode::SHR)
    } else if s.len() == 3 && s[0] == 'a' && s[1] == 'n' && s[2] == 'd' {
        Some(OpCode::AND)
    } else if s.len() == 2 && s[0] == 'o' && s[1] == 'r' {
        Some(OpCode::OR)
    } else if s.len() == 3 && s[0] == 'x' && s[1] == 'o' && s[2] == 'r' {
        Some(OpCode::XOR)
    } else if s.len() == 3 && s[0] == 'n' && s[1] == 'o' && s[2] == 't' {
        Some(OpCode::NOT)
    } else if s.len() == 3 && s[0] == 'j' && s[1] == 'm' && s[2] == 'p' {
        Some(OpCode::JMP(JCode::JMP))
    } else if s.len() == 2 && s[0] == 'j' && s[1] == 'e' {
        Some(OpCode::JMP(JCode::JE))
    } else if s.len() == 2 && s[0] == 'j' && s[1] == 'l' {
        Some(OpCode::JMP(JCode::JL))
    } else if s.len() == 2 && s[0] == 'j' && s[1] == 'h' {
        Some(OpCode::JMP(JCode::JH))
    } else if s.len() == 3 && s[0] == 'j' && s[1] == 'h' && s[2] == 'e' {
        Some(OpCode::JMP(JCode::JHE))
    } else if s.len() == 3 && s[0] == 'j' && s[1] == 'l' && s[2] == 'e' {
        Some(OpCode::JMP(JCode::JLE))
    } else if s.len() == 3 && s[0] == 'i' && s[1] == 'n' && s[2] == 't' {
        Some(OpCode::INT)
    } else if s.len() == 4 && s[0] == 'p' && s[1] == 'u' && s[2] == 's' && s[3] == 'h' {
        Some(OpCode::PUSH)
    } else if s.len() == 3 && s[0] == 'p' && s[1] == 'o' && s[2] == 'p' {
        Some(OpCode::POP)
    } else if s.len() == 3 && s[0] == 'r' && s[1] == 'e' && s[2] == 't' {
        Some(OpCode::RET)
    } else if s.len() == 4 && s[0] == 'c' && s[1] == 'a' && s[2] == 'l' && s[3] == 'l' {
        Some(OpCode::CALL)
    } else if s.len() == 3 && s[0] == 'm' && s[1] == 'o' && s[2] == 'v' {
        Some(OpCode::MOV)
    } else if s.len() == 2 && s[0] == 'r' && s[1] == 'd' {
        Some(OpCode::READ)
    } else if s.len() == 2 && s[0] == 'w' && s[1] == 'r' {
        Some(OpCode::WRITE)
    } else if s.len() == 3 && s[0] == 'c' && s[1] == 'm' && s[2] == 'p' {
        Some(OpCode::CMP)
    } else if s.len() == 5 && s[0] == 'c' && s[1] == 'l' && s[2] == 'e' && s[3] == 'a' && s[4]
        == 'r' {
        Some(OpCode::CLEAR)
    } else if s.len() == 4 && s[0] == 'h' && s[1] == 'a' && s[2] == 'l' && s[3] == 't' {
        Some(OpCode::HALT)
    } else if s.len() == 5 && s[0] == 't' && s[1] == 'r' && s[2] == 'a' && s[3] == 'c' && s[4]
        == 'e' {
        Some(OpCode::TRACE)
    } else if s.len() == 3 && s[0] == 'd' && s[1] == 'u' && s[2] == 'p' {
        Some(OpCode::DUP)
    } else if s.len() == 4 && s[0] == 's' && s[1] == 'w' && s[2] == 'a' && s[3] == 'p' {
        Some(OpCode::SWAP)
    } else {
        None
    }
}

impl JCode {
    /// The 3-bit wire value of this jump sub-code.
    pub fn value(self) -> (r: u8)
        ensures
            r == spec_jcode_value(self),
    {
        match self {
            JCode::JMP => 0,
            JCode::JE => 1,
            JCode::JH => 2,
            JCode::JL => 3,
            JCode::JLE => 4,
            JCode::JHE => 5,
        }
    }
}

impl OpCode {
    /// The 5-bit wire value of this opcode.
    pub fn value(self) -> (r: u8)
        ensures
            r == spec_op_value(self),
    {
        match self {
            OpCode::ADD => 0,
            OpCode::MUL => 1,
            OpCode::SUB => 2,
            OpCode::DIV => 3,
            OpCode::MOD => 4,
            OpCode::NEG => 5,
            OpCode::SHL => 6,
            OpCode::SHR => 7,
            OpCode::AND => 8,
            OpCode::OR => 9,
            OpCode::XOR => 10,
            OpCode::NOT => 11,
            OpCode::JMP(_) => 12,
            OpCode::INT => 13,
            OpCode::PUSH => 14,
            OpCode::POP => 15,
            OpCode::RET => 16,
            OpCode::CALL => 17,
            OpCode::MOV => 18,
            OpCode::READ => 19,
            OpCode::WRITE => 20,
            OpCode::CMP => 21,
            OpCode::CLEAR => 22,
            OpCode::HALT => 23,
            OpCode::TRACE => 24,
            OpCode::DUP => 25,
            OpCode::SWAP => 26,
        }
    }

    /// Exact-match lookup of a mnemonic.
    pub fn from_mnemonic(s: &Vec<char>) -> (r: Option<OpCode>)
        ensures
            r == spec_op_of(s@),
    {
        if s.len() == 2 {
            if s[0] == 'o' && s[1] == 'r' {
                Some(OpCode::OR)
            } else if s[0] == 'j' && s[1] == 'e' {
                Some(OpCode::JMP(JCode::JE))
            } else if s[0] == 'j' && s[1] == 'l' {
                Some(OpCode::JMP(JCode::JL))
            } else if s[0] == 'j' && s[1] == 'h' {
                Some(OpCode::JMP(JCode::JH))
            } else if s[0] == 'r' && s[1] == 'd' {
                Some(OpCode::READ)
            } else if s[0] == 'w' && s[1] == 'r' {
                Some(OpCode::WRITE)
            } else {
                None
            }
        } else if s.len() == 3 {
            if s[0] == 'a' && s[1] == 'd' && s[2] == 'd' {
                Some(OpCode::ADD)
            } else if s[0] == 'm' && s[1] == 'u' && s[2] == 'l' {
                Some(OpCode::MUL)
            } else if s[0] == 's' && s[1] == 'u' && s[2] == 'b' {
                Some(OpCode::SUB)
            } else if s[0] == 'd' && s[1] == 'i' && s[2] == 'v' {
                Some(OpCode::DIV)
            } else if s[0] == 'm' && s[1] == 'o' && s[2] == 'd' {
                Some(OpCode::MOD)
            } else if s[0] == 'n' && s[1] == 'e' && s[2] == 'g' {
                Some(OpCode::NEG)
            } else if s[0] == 's' && s[1] == 'h' && s[2] == 'l' {
                Some(OpCode::SHL)
            } else if s[0] == 's' && s[1] == 'h' && s[2] == 'r' {
                Some(OpCode::SHR)
            } else if s[0] == 'a' && s[1] == 'n' && s[2] == 'd' {
                Some(OpCode::AND)
            } else if s[0] == 'x' && s[1] == 'o' && s[2] == 'r' {
                Some(OpCode::XOR)
            } else if s[0] == 'n' && s[1] == 'o' && s[2] == 't' {
                Some(OpCode::NOT)
            } else if s[0] == 'j' && s[1] == 'm' && s[2] == 'p' {
                Some(OpCode::JMP(JCode::JMP))
            } else if s[0] == 'j' && s[1] == 'h' && s[2] == 'e' {
                Some(OpCode::JMP(JCode::JHE))
            } else if s[0] == 'j' && s[1] == 'l' && s[2] == 'e' {
                Some(OpCode::JMP(JCode::JLE))
            } else if s[0] == 'i' && s[1] == 'n' && s[2] == 't' {
                Some(OpCode::INT)
            } else if s[0] == 'p' && s[1] == 'o' && s[2] == 'p' {
                Some(OpCode::POP)
            } else if s[0] == 'r' && s[1] == 'e' && s[2] == 't' {
                Some(OpCode::RET)
            } else if s[0] == 'm' && s[1] == 'o' && s[2] == 'v' {
                Some(OpCode::MOV)
            } else if s[0] == 'c' && s[1] == 'm' && s[2] == 'p' {
                Some(OpCode::CMP)
            } else if s[0] == 'd' && s[1] == 'u' && s[2] == 'p' {
                Some(OpCode::DUP)
            } else {
                None
            }
        } else if s.len() == 4 {
            if s[0] == 'p' && s[1] == 'u' && s[2] == 's' && s[3] == 'h' {
                Some(OpCode::PUSH)
            } else if s[0] == 'c' && s[1] == 'a' && s[2] == 'l' && s[3] == 'l' {
                Some(OpCode::CALL)
            } else if s[0] == 'h' && s[1] == 'a' && s[2] == 'l' && s[3] == 't' {
                Some(OpCode::HALT)
            } else if s[0] == 's' && s[1] == 'w' && s[2] == 'a' && s[3] == 'p' {
                Some(OpCode::SWAP)
            } else {
                None
            }
        } else if s.len() == 5 {
            if s[0] == 'c' && s[1] == 'l' && s[2] == 'e' && s[3] == 'a' && s[4] == 'r' {
                Some(OpCode::CLEAR)
            } else if s[0] == 't' && s[1] == 'r' && s[2] == 'a' && s[3] == 'c' && s[4] == 'e' {
                Some(OpCode::TRACE)
            } else {
                None
            }
        } else {
            None
        }
    }
}

} // verus!

verus! {

use crate::errors::{ErrorKindV, SyntaxErrorKind};
use crate::registers::spec_register_index;
use crate::word::{word_views, Word, WordV};

/// The opcodes that demand a register followed by a register or immediate.
pub open spec fn spec_is_two_operand(op: OpCode) -> bool {
    op is ADD || op is MUL || op is SUB || op is DIV || op is MOD || op is SHL || op is SHR || op
        is AND || op is OR || op is XOR || op is NOT || op is CMP || op is READ || op is WRITE || op
        is MOV
}

/// The opcodes that demand no operands.
pub open spec fn spec_is_zero_operand(op: OpCode) -> bool {
    op is HALT || op is SWAP || op is DUP || op is CLEAR || op is TRACE || op is NEG || op is RET
}

/// The opcodes that demand one register or immediate.
pub open spec fn spec_is_one_reg_or_imm(op: OpCode) -> bool {
    op is INT || op is JMP || op is CALL || op is PUSH
}

/// A register operand.
pub open spec fn spec_operand_is_reg(w: WordV) -> bool {
    w.content is Register
}

/// A register or immediate operand: a register, a number, or a label
/// reference that resolves to a numeric address at encode time.
pub open spec fn spec_operand_is_reg_or_imm(w: WordV) -> bool {
    w.content is Register || w.content is Number || w.content is Label
}

/// The operand-shape rule of an opcode, applied to the operand words that
/// follow it on a line.  The first operand of a two-operand opcode is stored
/// in a 3-bit register field, so only `r0` to `r7` are accepted there; the
/// wide registers `rpc` and `rcond` are rejected like any other shape
/// mismatch.
pub open spec fn spec_check_compatibility(op: OpCode, ws: Seq<WordV>) -> Result<(), ErrorKindV> {
    if spec_is_two_operand(op) {
        if ws.len() == 2 && ws[0].content is Register && spec_register_index(
            ws[0].content->Register_0,
        ) < 8 && spec_operand_is_reg_or_imm(ws[1]) {
            Ok(())
        } else {
            Err(ErrorKindV::ExpectedRegImmOrReg(op))
        }
    } else if spec_is_zero_operand(op) {
        if ws.len() == 0 {
            Ok(())
        } else {
            Err(ErrorKindV::ExpectedNothing(op))
        }
    } else if spec_is_one_reg_or_imm(op) {
        if ws.len() == 1 && spec_operand_is_reg_or_imm(ws[0]) {
            Ok(())
        } else {
            Err(ErrorKindV::ExpectedRegOrImm(op))
        }
    } else {
        if ws.len() == 1 && ws[0].content is Register {
            Ok(())
        } else {
            Err(ErrorKindV::ExpectedReg(op))
        }
    }
}

impl OpCode {
    /// Validates the operand words that follow this opcode on a line.
    pub fn check_compatibility(self, line: &Vec<Word>) -> (r: Result<(), SyntaxErrorKind>)
        ensures
            match r {
                Ok(_) => spec_check_compatibility(self, word_views(line@)) is Ok,
                Err(e) => spec_check_compatibility(self, word_views(line@)) == Result::<
                    (),
                    ErrorKindV,
                >::Err(e@),
            },
    {
        proof {
            assert(word_views(line@).len() == line@.len());
            assert(forall|i: int|
                0 <= i < line@.len() ==> word_views(line@)[i] == line@[i]@);
        }
        match self {
            OpCode::MOD | OpCode::ADD | OpCode::MUL | OpCode::SUB | OpCode::DIV | OpCode::SHL
                | OpCode::SHR | OpCode::AND | OpCode::OR | OpCode::XOR | OpCode::NOT | OpCode::CMP
                | OpCode::READ | OpCode::WRITE | OpCode::MOV => {
                if line.len() == 2 && line[0].is_reg() && line[1].is_reg_or_imm() {
                    match line[0].get_reg() {
                        Some(reg) => {
                            if reg.index() < 8 {
                                Ok(())
                            } else {
                                Err(SyntaxErrorKind::ExpectedRegImmOrReg(self))
                            }
                        },
                        None => Err(SyntaxErrorKind::ExpectedRegImmOrReg(self)),
                    }
                } else {
                    Err(SyntaxErrorKind::ExpectedRegImmOrReg(self))
                }
            },
            OpCode::HALT | OpCode::SWAP | OpCode::DUP | OpCode::CLEAR | OpCode::TRACE
                | OpCode::NEG | OpCode::RET => {
                if line.len() == 0 {
                    Ok(())
                } else {
                    Err(SyntaxErrorKind::ExpectedNothing(self))
                }
            },
            OpCode::INT | OpCode::JMP(_) | OpCode::CALL | OpCode::PUSH => {
                if line.len() == 1 && line[0].is_reg_or_imm() {
                    Ok(())
                } else {
                    Err(SyntaxErrorKind::ExpectedRegOrImm(self))
                }
            },
            OpCode::POP => {
                if line.len() == 1 && line[0].is_reg() {
                    Ok(())
                } else {
                    Err(SyntaxErrorKind::ExpectedReg(self))
                }
            },
        }
    }
}

} // verus!
