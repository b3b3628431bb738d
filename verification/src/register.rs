//! The closed set of register operands and its textual validator.
//!
//! A register token is matched case-insensitively against the six mnemonics
//! `%rga`, `%rgb`, `%rgc`, `%rgd`, `%ret`, `%mem`; each register carries a
//! fixed numeric id used by the instruction encoding.

use vstd::prelude::*;

use crate::text::lower_of;
use crate::text::fold_case;
use crate::text::str_eq;

verus! {

/// One of the six operand registers of the robot CPU.
#[derive(Clone, Copy, Debug, PartialEq, Eq, Structural)]
pub enum Register {
    RGA,
    RGB,
    RGC,
    RGD,
    RET,
    MEM,
}

/// Failure of the register validator.
#[derive(Clone, Copy, Debug, PartialEq, Eq, Structural)]
pub enum RegisterParseError {
    InvalidRegister,
}

/// The fixed numeric id a register encodes as.
pub open spec fn spec_register_id(r: Register) -> u8 {
    match r {
        Register::RGA => 0,
        Register::RGB => 1,
        Register::RGC => 2,
        Register::RGD => 3,
        Register::RET => 4,
        Register::MEM => 5,
    }
}

/// Which register, if any, a token names: the token is case-folded and must
/// match one of the six `%`-prefixed mnemonics exactly.
pub open spec fn spec_register_of(s: Seq<char>) -> Option<Register> {
    let folded = lower_of(s);
    if folded == "%rga"@ {
        Some(Register::RGA)
    } else if folded == "%rgb"@ {
        Some(Register::RGB)
    } else if folded == "%rgc"@ {
        Some(Register::RGC)
    } else if folded == "%rgd"@ {
        Some(Register::RGD)
    } else if folded == "%ret"@ {
        Some(Register::RET)
    } else if folded == "%mem"@ {
        Some(Register::MEM)
    } else {
        None
    }
}

impl Register {
    /// The register's fixed numeric id.
    pub fn id(&self) -> (r: u8)
        ensures
            r == spec_register_id(*self),
    {
        match self {
            Register::RGA => 0,
            Register::RGB => 1,
            Register::RGC => 2,
            Register::RGD => 3,
            Register::RET => 4,
            Register::MEM => 5,
        }
    }

    /// Validate a token as a register name, case-insensitively.
    pub fn from_str(s: &str) -> (r: Result<Register, RegisterParseError>)
        ensures
            r matches Ok(reg) ==> spec_register_of(s@) == Some(reg),
            r is Err ==> spec_register_of(s@) is None && r == Err::<Register, RegisterParseError>(
                RegisterParseError::InvalidRegister,
            ),
    {
        let folded = fold_case(s);
        let f = folded.as_str();
        if str_eq(f, "%rga") {
            Ok(Register::RGA)
        } else if str_eq(f, "%rgb") {
            Ok(Register::RGB)
        } else if str_eq(f, "%rgc") {
            Ok(Register::RGC)
        } else if str_eq(f, "%rgd") {
            Ok(Register::RGD)
        } else if str_eq(f, "%ret") {
            Ok(Register::RET)
        } else if str_eq(f, "%mem") {
            Ok(Register::MEM)
        } else {
            Err(RegisterParseError::InvalidRegister)
        }
    }
}

} // verus!
