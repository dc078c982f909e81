//! Bytecode instruction set for the probe VM.
//!
//! This is a stack-based VM with no control flow (no jumps, no conditionals).
//! Execution proceeds linearly from start to end, with the final stack value
//! as the result.  Opcodes are single bytes; some carry little-endian
//! operands.

use vstd::prelude::*;

verus! {

/// Opcodes are single bytes (u8) for compact representation.
#[derive(Debug, Clone, Copy, PartialEq, Eq, Structural)]
pub enum Opcode {
    /// Push constant from constant pool onto stack; operand: u16 pool index
    PushConst,
    /// Pop top value from stack and discard
    Pop,
    /// Duplicate top value on stack (reserved, not emitted)
    Dup,
    /// Load variable by name; operand: u16 pool index of the identifier
    LoadVar,
    /// Store top of stack to variable; operand: u16 pool index
    StoreVar,
    /// a + b
    Add,
    /// a - b
    Sub,
    /// a * b
    Mul,
    /// a / b
    Div,
    /// a % b
    Mod,
    /// a == b
    Eq,
    /// a != b
    Ne,
    /// a < b
    Lt,
    /// a > b
    Gt,
    /// a <= b
    Le,
    /// a >= b
    Ge,
    /// a && b
    And,
    /// a || b
    Or,
    /// !a
    Not,
    /// obj.field; operand: u16 pool index of the field name
    GetAttr,
    /// obj[key]; key is on the stack
    GetItem,
    /// obj.field = value; operand: u16 pool index of the field name
    SetAttr,
    /// Call function; operands: u16 pool index of the name, u8 arg count
    CallFunc,
}

/// The wire byte of each opcode.
pub open spec fn spec_opcode_byte(op: Opcode) -> u8 {
    match op {
        Opcode::PushConst => 0x01,
        Opcode::Pop => 0x02,
        Opcode::Dup => 0x03,
        Opcode::LoadVar => 0x10,
        Opcode::StoreVar => 0x11,
        Opcode::Add => 0x20,
        Opcode::Sub => 0x21,
        Opcode::Mul => 0x22,
        Opcode::Div => 0x23,
        Opcode::Mod => 0x24,
        Opcode::Eq => 0x30,
        Opcode::Ne => 0x31,
        Opcode::Lt => 0x32,
        Opcode::Gt => 0x33,
        Opcode::Le => 0x34,
        Opcode::Ge => 0x35,
        Opcode::And => 0x40,
        Opcode::Or => 0x41,
        Opcode::Not => 0x42,
        Opcode::GetAttr => 0x50,
        Opcode::GetItem => 0x51,
        Opcode::SetAttr => 0x52,
        Opcode::CallFunc => 0x60,
    }
}

/// The opcode a byte decodes to, if any.
pub open spec fn spec_opcode_of_byte(byte: u8) -> Option<Opcode> {
    match byte {
        0x01 => Some(Opcode::PushConst),
        0x02 => Some(Opcode::Pop),
        0x03 => Some(Opcode::Dup),
        0x10 => Some(Opcode::LoadVar),
        0x11 => Some(Opcode::StoreVar),
        0x20 => Some(Opcode::Add),
        0x21 => Some(Opcode::Sub),
        0x22 => Some(Opcode::Mul),
        0x23 => Some(Opcode::Div),
        0x24 => Some(Opcode::Mod),
        0x30 => Some(Opcode::Eq),
        0x31 => Some(Opcode::Ne),
        0x32 => Some(Opcode::Lt),
        0x33 => Some(Opcode::Gt),
        0x34 => Some(Opcode::Le),
        0x35 => Some(Opcode::Ge),
        0x40 => Some(Opcode::And),
        0x41 => Some(Opcode::Or),
        0x42 => Some(Opcode::Not),
        0x50 => Some(Opcode::GetAttr),
        0x51 => Some(Opcode::GetItem),
        0x52 => Some(Opcode::SetAttr),
        0x60 => Some(Opcode::CallFunc),
        _ => Option::<Opcode>::None,
    }
}

/// Operand byte count of an opcode, as a spec-level table.
pub open spec fn spec_operand_size(op: Opcode) -> int {
    match op {
        Opcode::PushConst | Opcode::LoadVar | Opcode::StoreVar | Opcode::GetAttr
            | Opcode::SetAttr => 2,
        Opcode::CallFunc => 3,
        _ => 0,
    }
}

impl Opcode {
    /// The single wire byte of this opcode.
    pub fn as_u8(self) -> (r: u8)
        ensures
            r == spec_opcode_byte(self),
    {
        match self {
            Opcode::PushConst => 0x01,
            Opcode::Pop => 0x02,
            Opcode::Dup => 0x03,
            Opcode::LoadVar => 0x10,
            Opcode::StoreVar => 0x11,
            Opcode::Add => 0x20,
            Opcode::Sub => 0x21,
            Opcode::Mul => 0x22,
            Opcode::Div => 0x23,
            Opcode::Mod => 0x24,
            Opcode::Eq => 0x30,
            Opcode::Ne => 0x31,
            Opcode::Lt => 0x32,
            Opcode::Gt => 0x33,
            Opcode::Le => 0x34,
            Opcode::Ge => 0x35,
            Opcode::And => 0x40,
            Opcode::Or => 0x41,
            Opcode::Not => 0x42,
            Opcode::GetAttr => 0x50,
            Opcode::GetItem => 0x51,
            Opcode::SetAttr => 0x52,
            Opcode::CallFunc => 0x60,
        }
    }

    /// Try to parse a u8 into an Opcode; fails exactly on bytes outside the
    /// opcode table.
    pub fn from_u8(byte: u8) -> (r: Result<Self, String>)
        ensures
            match spec_opcode_of_byte(byte) {
                Some(op) => r == Result::<Opcode, String>::Ok(op),
                Option::None => r is Err,
            },
    {
        match byte {
            0x01 => Ok(Opcode::PushConst),
            0x02 => Ok(Opcode::Pop),
            0x03 => Ok(Opcode::Dup),
            0x10 => Ok(Opcode::LoadVar),
            0x11 => Ok(Opcode::StoreVar),
            0x20 => Ok(Opcode::Add),
            0x21 => Ok(Opcode::Sub),
            0x22 => Ok(Opcode::Mul),
            0x23 => Ok(Opcode::Div),
            0x24 => Ok(Opcode::Mod),
            0x30 => Ok(Opcode::Eq),
            0x31 => Ok(Opcode::Ne),
            0x32 => Ok(Opcode::Lt),
            0x33 => Ok(Opcode::Gt),
            0x34 => Ok(Opcode::Le),
            0x35 => Ok(Opcode::Ge),
            0x40 => Ok(Opcode::And),
            0x41 => Ok(Opcode::Or),
            0x42 => Ok(Opcode::Not),
            0x50 => Ok(Opcode::GetAttr),
            0x51 => Ok(Opcode::GetItem),
            0x52 => Ok(Opcode::SetAttr),
            0x60 => Ok(Opcode::CallFunc),
            _ => {
                let mut m = String::new();
                m.append("Unknown opcode: ");
                m.append(crate::text::u64_text(byte as u64).as_str());
                Err(m)
            }
        }
    }

    /// Returns the number of operand bytes this opcode requires.
    pub fn operand_size(&self) -> (r: usize)
        ensures
            r == spec_operand_size(*self),
    {
        match self {
            Opcode::PushConst | Opcode::LoadVar | Opcode::StoreVar | Opcode::GetAttr
                | Opcode::SetAttr => 2,
            Opcode::CallFunc => 3,
            _ => 0,
        }
    }
}

/// Decoding the byte of an opcode gives the opcode back, and every opcode
/// byte is below 0x61.
pub proof fn lemma_opcode_byte_roundtrip(op: Opcode)
    ensures
        spec_opcode_of_byte(spec_opcode_byte(op)) == Some(op),
        spec_opcode_byte(op) < 0x61,
{
}

/// Little-endian 16-bit value of two bytes.
pub open spec fn spec_le16(b0: u8, b1: u8) -> u16 {
    (b0 + b1 * 0x100) as u16
}

/// Helper to read a u16 from bytecode in little-endian format.
pub fn read_u16(bytecode: &[u8], offset: usize) -> (r: Result<u16, String>)
    ensures
        offset + 2 <= bytecode@.len()
            ==> r == Result::<u16, String>::Ok(spec_le16(bytecode@[offset as int], bytecode@[offset + 1])),
        offset + 2 > bytecode@.len() ==> r is Err,
{
    if offset < bytecode.len() && offset + 1 < bytecode.len() {
        let b0 = bytecode[offset];
        let b1 = bytecode[offset + 1];
        Ok(b0 as u16 + (b1 as u16) * 0x100)
    } else {
        let mut m = String::new();
        m.append("Unexpected end of bytecode while reading u16");
        Err(m)
    }
}

/// Helper to read a u8 from bytecode.
pub fn read_u8(bytecode: &[u8], offset: usize) -> (r: Result<u8, String>)
    ensures
        offset < bytecode@.len() ==> r == Result::<u8, String>::Ok(bytecode@[offset as int]),
        offset >= bytecode@.len() ==> r is Err,
{
    if offset < bytecode.len() {
        Ok(bytecode[offset])
    } else {
        let mut m = String::new();
        m.append("Unexpected end of bytecode while reading u8");
        Err(m)
    }
}

} // verus!
