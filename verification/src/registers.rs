//! The register table: ten names with a fixed ordinal encoding.
//!
//! `r0`..`r7` map to 0..7, `rpc` to 8 and `rcond` to 9.  Lookup is
//! case-sensitive and exact.

use vstd::prelude::*;

verus! {

/// A machine register, identified by its wire index.
#[derive(Clone, Copy, Debug, PartialEq, Eq, Structural)]
pub enum Register {
    R0,
    R1,
    R2,
    R3,
    R4,
    R5,
    R6,
    R7,
    /// The program counter, index 8.
    PC,
    /// The condition register, index 9.
    COND,
}

/// The wire index of a register: `r0`..`r7` are 0..7, `rpc` is 8, `rcond` is 9.
pub open spec fn spec_register_index(r: Register) -> u8 {
    match r {
        Register::R0 => 0,
        Register::R1 => 1,
        Register::R2 => 2,
        Register::R3 => 3,
        Register::R4 => 4,
        Register::R5 => 5,
        Register::R6 => 6,
        Register::R7 => 7,
        Register::PC => 8,
        Register::COND => 9,
    }
}

/// The register named by `s`, if any.
pub open spec fn spec_register_of(s: Seq<char>) -> Option<Register> {
    if s.len() == 2 && s[0] == 'r' && s[1] == '0' {
        Some(Register::R0)
    } else if s.len() == 2 && s[0] == 'r' && s[1] == '1' {
        Some(Register::R1)
    } else if s.len() == 2 && s[0] == 'r' && s[1] == '2' {
        Some(Register::R2)
    } else if s.len() == 2 && s[0] == 'r' && s[1] == '3' {
        Some(Register::R3)
    } else if s.len() == 2 && s[0] == 'r' && s[1] == '4' {
        Some(Register::R4)
    } else if s.len() == 2 && s[0] == 'r' && s[1] == '5' {
        Some(Register::R5)
    } else if s.len() == 2 && s[0] == 'r' && s[1] == '6' {
        Some(Register::R6)
    } else if s.len() == 2 && s[0] == 'r' && s[1] == '7' {
        Some(Register::R7)
    } else if s.len() == 3 && s[0] == 'r' && s[1] == 'p' && s[2] == 'c' {
        Some(Register::PC)
    } else if s.len() == 5 && s[0] == 'r' && s[1] == 'c' && s[2] == 'o' && s[3] == 'n' && s[4]
        == 'd' {
        Some(Register::COND)
    } else {
        None
    }
}

impl Register {
    /// The 4-bit wire index of this register.
    pub fn index(self) -> (r: u8)
        ensures
            r == spec_register_index(self),
    {
        match self {
            Register::R0 => 0,
            Register::R1 => 1,
            Register::R2 => 2,
            Register::R3 => 3,
            Register::R4 => 4,
            Register::R5 => 5,
            Register::R6 => 6,
            Register::R7 => 7,
            Register::PC => 8,
            Register::COND => 9,
        }
    }

    /// Exact-match lookup of a register name.
    pub fn from_name(s: &Vec<char>) -> (r: Option<Register>)
        ensures
            r == spec_register_of(s@),
    {
        if s.len() == 2 && s[0] == 'r' {
            match s[1] {
                '0' => Some(Register::R0),
                '1' => Some(Register::R1),
                '2' => Some(Register::R2),
                '3' => Some(Register::R3),
                '4' => Some(Register::R4),
                '5' => Some(Register::R5),
                '6' => Some(Register::R6),
                '7' => Some(Register::R7),
                _ => None,
            }
        } else if s.len() == 3 && s[0] == 'r' && s[1] == 'p' && s[2] == 'c' {
            Some(Register::PC)
        } else if s.len() == 5 && s[0] == 'r' && s[1] == 'c' && s[2] == 'o' && s[3] == 'n' && s[4]
            == 'd' {
            Some(Register::COND)
        } else {
            None
        }
    }
}

} // verus!
