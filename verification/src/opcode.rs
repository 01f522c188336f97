//! The opcode table: each byte of a code buffer maps to at most one
//! operation tag. Three families (PUSH, DUP, SWAP) and the LOG family
//! carry an operand count decoded from the low bits of the byte.
//!
//! The table holds exactly the operations the engine dispatches. Any
//! other byte — deliberately including the balance, caller, call-data
//! and return-data introspection range, which this engine does not
//! implement — decodes as `None`, and the engine reports it as an
//! unknown opcode instead of aborting.

use vstd::prelude::*;

verus! {

/// One decoded instruction. The payload of `Push`, `Dup`, `Swap` and
/// `Log` is the operand count embedded in the opcode byte:
/// `Push(n)` with `1 <= n <= 32`, `Dup(n)` and `Swap(n)` with
/// `1 <= n <= 16`, and `Log(n)` with `0 <= n <= 4`.
#[derive(Clone, Copy, Debug, PartialEq, Eq, Structural)]
pub enum Opcode {
    Stop,
    Add,
    Mul,
    Sub,
    Div,
    SDiv,
    Mod,
    SMod,
    AddMod,
    MulMod,
    Exp,
    SignExtend,
    Lt,
    Gt,
    SLt,
    SGt,
    Equal,
    IsZero,
    And,
    Or,
    Xor,
    Not,
    Byte,
    Sha3,
    Address,
    CodeSize,
    CodeCopy,
    Pop,
    MLoad,
    MStore,
    MStore8,
    SLoad,
    SStore,
    Jump,
    JumpI,
    Pc,
    MSize,
    Gas,
    JumpDest,
    Push(u8),
    Dup(u8),
    Swap(u8),
    Log(u8),
    Create,
    Call,
    CallCode,
    Return,
    DelegateCall,
    Invalid,
    Suicide,
}

/// The full opcode table as a mathematical function: `None` exactly for
/// the bytes outside the defined table.
pub open spec fn spec_decode(b: u8) -> Option<Opcode> {
    if b == 0x00 {
        Some(Opcode::Stop)
    } else if b == 0x01 {
        Some(Opcode::Add)
    } else if b == 0x02 {
        Some(Opcode::Mul)
    } else if b == 0x03 {
        Some(Opcode::Sub)
    } else if b == 0x04 {
        Some(Opcode::Div)
    } else if b == 0x05 {
        Some(Opcode::SDiv)
    } else if b == 0x06 {
        Some(Opcode::Mod)
    } else if b == 0x07 {
        Some(Opcode::SMod)
    } else if b == 0x08 {
        Some(Opcode::AddMod)
    } else if b == 0x09 {
        Some(Opcode::MulMod)
    } else if b == 0x0a {
        Some(Opcode::Exp)
    } else if b == 0x0b {
        Some(Opcode::SignExtend)
    } else if b == 0x10 {
        Some(Opcode::Lt)
    } else if b == 0x11 {
        Some(Opcode::Gt)
    } else if b == 0x12 {
        Some(Opcode::SLt)
    } else if b == 0x13 {
        Some(Opcode::SGt)
    } else if b == 0x14 {
        Some(Opcode::Equal)
    } else if b == 0x15 {
        Some(Opcode::IsZero)
    } else if b == 0x16 {
        Some(Opcode::And)
    } else if b == 0x17 {
        Some(Opcode::Or)
    } else if b == 0x18 {
        Some(Opcode::Xor)
    } else if b == 0x19 {
        Some(Opcode::Not)
    } else if b == 0x1a {
        Some(Opcode::Byte)
    } else if b == 0x20 {
        Some(Opcode::Sha3)
    } else if b == 0x30 {
        Some(Opcode::Address)
    } else if b == 0x38 {
        Some(Opcode::CodeSize)
    } else if b == 0x39 {
        Some(Opcode::CodeCopy)
    } else if b == 0x50 {
        Some(Opcode::Pop)
    } else if b == 0x51 {
        Some(Opcode::MLoad)
    } else if b == 0x52 {
        Some(Opcode::MStore)
    } else if b == 0x53 {
        Some(Opcode::MStore8)
    } else if b == 0x54 {
        Some(Opcode::SLoad)
    } else if b == 0x55 {
        Some(Opcode::SStore)
    } else if b == 0x56 {
        Some(Opcode::Jump)
    } else if b == 0x57 {
        Some(Opcode::JumpI)
    } else if b == 0x58 {
        Some(Opcode::Pc)
    } else if b == 0x59 {
        Some(Opcode::MSize)
    } else if b == 0x5a {
        Some(Opcode::Gas)
    } else if b == 0x5b {
        Some(Opcode::JumpDest)
    } else if 0x60 <= b && b <= 0x7f {
        Some(Opcode::Push((b - 0x5f) as u8))
    } else if 0x80 <= b && b <= 0x8f {
        Some(Opcode::Dup((b - 0x7f) as u8))
    } else if 0x90 <= b && b <= 0x9f {
        Some(Opcode::Swap((b - 0x8f) as u8))
    } else if 0xa0 <= b && b <= 0xa4 {
        Some(Opcode::Log((b - 0xa0) as u8))
    } else if b == 0xf0 {
        Some(Opcode::Create)
    } else if b == 0xf1 {
        Some(Opcode::Call)
    } else if b == 0xf2 {
        Some(Opcode::CallCode)
    } else if b == 0xf3 {
        Some(Opcode::Return)
    } else if b == 0xf4 {
        Some(Opcode::DelegateCall)
    } else if b == 0xfe {
        Some(Opcode::Invalid)
    } else if b == 0xff {
        Some(Opcode::Suicide)
    } else {
        None
    }
}

/// The payload of a family opcode is within its family's range.
pub open spec fn opcode_wf(op: Opcode) -> bool {
    match op {
        Opcode::Push(n) => 1 <= n <= 32,
        Opcode::Dup(n) => 1 <= n <= 16,
        Opcode::Swap(n) => 1 <= n <= 16,
        Opcode::Log(n) => n <= 4,
        _ => true,
    }
}

impl Opcode {
    /// Decodes one byte against the opcode table; `None` exactly for
    /// the bytes outside it.
    pub fn decode(b: u8) -> (r: Option<Opcode>)
        ensures
            r == spec_decode(b),
            r matches Some(op) ==> opcode_wf(op),
    {
        if b == 0x00 {
            Some(Opcode::Stop)
        } else if b == 0x01 {
            Some(Opcode::Add)
        } else if b == 0x02 {
            Some(Opcode::Mul)
        } else if b == 0x03 {
            Some(Opcode::Sub)
        } else if b == 0x04 {
            Some(Opcode::Div)
        } else if b == 0x05 {
            Some(Opcode::SDiv)
        } else if b == 0x06 {
            Some(Opcode::Mod)
        } else if b == 0x07 {
            Some(Opcode::SMod)
        } else if b == 0x08 {
            Some(Opcode::AddMod)
        } else if b == 0x09 {
            Some(Opcode::MulMod)
        } else if b == 0x0a {
            Some(Opcode::Exp)
        } else if b == 0x0b {
            Some(Opcode::SignExtend)
        } else if b == 0x10 {
            Some(Opcode::Lt)
        } else if b == 0x11 {
            Some(Opcode::Gt)
        } else if b == 0x12 {
            Some(Opcode::SLt)
        } else if b == 0x13 {
            Some(Opcode::SGt)
        } else if b == 0x14 {
            Some(Opcode::Equal)
        } else if b == 0x15 {
            Some(Opcode::IsZero)
        } else if b == 0x16 {
            Some(Opcode::And)
        } else if b == 0x17 {
            Some(Opcode::Or)
        } else if b == 0x18 {
            Some(Opcode::Xor)
        } else if b == 0x19 {
            Some(Opcode::Not)
        } else if b == 0x1a {
            Some(Opcode::Byte)
        } else if b == 0x20 {
            Some(Opcode::Sha3)
        } else if b == 0x30 {
            Some(Opcode::Address)
        } else if b == 0x38 {
            Some(Opcode::CodeSize)
        } else if b == 0x39 {
            Some(Opcode::CodeCopy)
        } else if b == 0x50 {
            Some(Opcode::Pop)
        } else if b == 0x51 {
            Some(Opcode::MLoad)
        } else if b == 0x52 {
            Some(Opcode::MStore)
        } else if b == 0x53 {
            Some(Opcode::MStore8)
        } else if b == 0x54 {
            Some(Opcode::SLoad)
        } else if b == 0x55 {
            Some(Opcode::SStore)
        } else if b == 0x56 {
            Some(Opcode::Jump)
        } else if b == 0x57 {
            Some(Opcode::JumpI)
        } else if b == 0x58 {
            Some(Opcode::Pc)
        } else if b == 0x59 {
            Some(Opcode::MSize)
        } else if b == 0x5a {
            Some(Opcode::Gas)
        } else if b == 0x5b {
            Some(Opcode::JumpDest)
        } else if 0x60 <= b && b <= 0x7f {
            Some(Opcode::Push(b - 0x5f))
        } else if 0x80 <= b && b <= 0x8f {
            Some(Opcode::Dup(b - 0x7f))
        } else if 0x90 <= b && b <= 0x9f {
            Some(Opcode::Swap(b - 0x8f))
        } else if 0xa0 <= b && b <= 0xa4 {
            Some(Opcode::Log(b - 0xa0))
        } else if b == 0xf0 {
            Some(Opcode::Create)
        } else if b == 0xf1 {
            Some(Opcode::Call)
        } else if b == 0xf2 {
            Some(Opcode::CallCode)
        } else if b == 0xf3 {
            Some(Opcode::Return)
        } else if b == 0xf4 {
            Some(Opcode::DelegateCall)
        } else if b == 0xfe {
            Some(Opcode::Invalid)
        } else if b == 0xff {
            Some(Opcode::Suicide)
        } else {
            None
        }
    }
}

} // verus!
