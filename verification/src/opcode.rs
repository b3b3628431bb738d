//! The instruction set and its canonical binary encoding.
//!
//! An instruction is an opcode byte followed by zero, one or two operand
//! bytes. The opcode type is generic over how a label operand is carried:
//! before resolution an instruction holds label names; after resolution every
//! label operand has become a single address byte. `placeholder_labels`
//! projects the first form onto the second, emitting a zero placeholder byte
//! and reporting which byte of the encoding awaits which label's address.

use vstd::prelude::*;

use crate::label::LabelString;
use crate::register::spec_register_id;
use crate::register::Register;

verus! {

pub const OP_ADD: u8 = 0;

pub const OP_SUB: u8 = 1;

pub const OP_MUL: u8 = 2;

pub const OP_DIV: u8 = 3;

pub const OP_JMP: u8 = 4;

pub const OP_JMPC: u8 = 5;

pub const OP_MOVR: u8 = 6;

pub const OP_MOVIMM: u8 = 7;

pub const OP_MOVADDR: u8 = 8;

pub const OP_STACKGET: u8 = 9;

pub const OP_STACKSET: u8 = 10;

pub const OP_EXEC: u8 = 11;

pub const OP_RETURN: u8 = 12;

pub const OP_CMPCALLADDR: u8 = 13;

pub const OP_CMPCALLIMM: u8 = 14;

pub const OP_FORWARD: u8 = 15;

pub const OP_ROTATE: u8 = 16;

pub const OP_BREAK: u8 = 17;

pub const OP_BATTERY: u8 = 18;

pub const OP_INVENTORYGET: u8 = 19;

pub const OP_INVENTORYDROP: u8 = 20;

pub const OP_INVENTORYITEM: u8 = 21;

pub const OP_OUTPUT: u8 = 22;

pub const OP_NOOP: u8 = 23;

/// One instruction. `L` is how a label operand is carried: a name before
/// resolution, a single address byte after.
#[derive(Clone, Copy, Debug)]
pub enum OpCode<L> {
    Add,
    Sub,
    Mul,
    Div,
    Jmp { label: L },
    JmpCondition { label: L },
    MovReg { to: Register, from: Register },
    MovImm { to: Register, from: u8 },
    MovAddr { to: Register, from: L },
    StackGet,
    StackSet,
    Exec,
    Return,
    CmpCallAddr { component: L },
    CmpCallImm { component: u8 },
    Forward,
    Rotate,
    Break,
    Battery,
    InventoryGet,
    InventoryDrop,
    InventoryItem,
    Output,
    Noop,
}

/// Failure of reading an instruction back out of memory.
#[derive(Clone, Copy, Debug, PartialEq, Eq, Structural)]
pub enum ReadOpCodeError {
    OutOfBounds,
    InvalidOpcode,
}

impl View for OpCode<LabelString> {
    type V = OpCode<Seq<char>>;

    open spec fn view(&self) -> OpCode<Seq<char>> {
        match *self {
            OpCode::Add => OpCode::Add,
            OpCode::Sub => OpCode::Sub,
            OpCode::Mul => OpCode::Mul,
            OpCode::Div => OpCode::Div,
            OpCode::Jmp { label } => OpCode::Jmp { label: label@ },
            OpCode::JmpCondition { label } => OpCode::JmpCondition { label: label@ },
            OpCode::MovReg { to, from } => OpCode::MovReg { to, from },
            OpCode::MovImm { to, from } => OpCode::MovImm { to, from },
            OpCode::MovAddr { to, from } => OpCode::MovAddr { to, from: from@ },
            OpCode::StackGet => OpCode::StackGet,
            OpCode::StackSet => OpCode::StackSet,
            OpCode::Exec => OpCode::Exec,
            OpCode::Return => OpCode::Return,
            OpCode::CmpCallAddr { component } => OpCode::CmpCallAddr { component: component@ },
            OpCode::CmpCallImm { component } => OpCode::CmpCallImm { component },
            OpCode::Forward => OpCode::Forward,
            OpCode::Rotate => OpCode::Rotate,
            OpCode::Break => OpCode::Break,
            OpCode::Battery => OpCode::Battery,
            OpCode::InventoryGet => OpCode::InventoryGet,
            OpCode::InventoryDrop => OpCode::InventoryDrop,
            OpCode::InventoryItem => OpCode::InventoryItem,
            OpCode::Output => OpCode::Output,
            OpCode::Noop => OpCode::Noop,
        }
    }
}

/// The canonical byte encoding of a resolved instruction: the opcode byte,
/// then its operand bytes.
pub open spec fn spec_encode(op: OpCode<u8>) -> Seq<u8> {
    match op {
        OpCode::Add => seq![OP_ADD],
        OpCode::Sub => seq![OP_SUB],
        OpCode::Mul => seq![OP_MUL],
        OpCode::Div => seq![OP_DIV],
        OpCode::Jmp { label } => seq![OP_JMP, label],
        OpCode::JmpCondition { label } => seq![OP_JMPC, label],
        OpCode::MovReg { to, from } => seq![OP_MOVR, spec_register_id(to), spec_register_id(from)],
        OpCode::MovImm { to, from } => seq![OP_MOVIMM, spec_register_id(to), from],
        OpCode::MovAddr { to, from } => seq![OP_MOVADDR, spec_register_id(to), from],
        OpCode::StackGet => seq![OP_STACKGET],
        OpCode::StackSet => seq![OP_STACKSET],
        OpCode::Exec => seq![OP_EXEC],
        OpCode::Return => seq![OP_RETURN],
        OpCode::CmpCallAddr { component } => seq![OP_CMPCALLADDR, component],
        OpCode::CmpCallImm { component } => seq![OP_CMPCALLIMM, component],
        OpCode::Forward => seq![OP_FORWARD],
        OpCode::Rotate => seq![OP_ROTATE],
        OpCode::Break => seq![OP_BREAK],
        OpCode::Battery => seq![OP_BATTERY],
        OpCode::InventoryGet => seq![OP_INVENTORYGET],
        OpCode::InventoryDrop => seq![OP_INVENTORYDROP],
        OpCode::InventoryItem => seq![OP_INVENTORYITEM],
        OpCode::Output => seq![OP_OUTPUT],
        OpCode::Noop => seq![OP_NOOP],
    }
}

/// The projection of a pre-resolution instruction: the same instruction with
/// every label operand replaced by a zero placeholder byte, and, if there was
/// a label operand, which symbol table it belongs to (`true` for the program
/// table, `false` for the data table), the placeholder's byte offset within
/// the encoding, and the label's name.
pub open spec fn spec_placeholder(op: OpCode<Seq<char>>) -> (OpCode<u8>, Option<
    (bool, u8, Seq<char>),
>) {
    match op {
        OpCode::Add => (OpCode::Add, None),
        OpCode::Sub => (OpCode::Sub, None),
        OpCode::Mul => (OpCode::Mul, None),
        OpCode::Div => (OpCode::Div, None),
        OpCode::Jmp { label } => (OpCode::Jmp { label: 0 }, Some((true, 1u8, label))),
        OpCode::JmpCondition { label } => (
            OpCode::JmpCondition { label: 0 },
            Some((true, 1u8, label)),
        ),
        OpCode::MovReg { to, from } => (OpCode::MovReg { to, from }, None),
        OpCode::MovImm { to, from } => (OpCode::MovImm { to, from }, None),
        OpCode::MovAddr { to, from } => (
            OpCode::MovAddr { to, from: 0 },
            Some((false, 2u8, from)),
        ),
        OpCode::StackGet => (OpCode::StackGet, None),
        OpCode::StackSet => (OpCode::StackSet, None),
        OpCode::Exec => (OpCode::Exec, None),
        OpCode::Return => (OpCode::Return, None),
        OpCode::CmpCallAddr { component } => (
            OpCode::CmpCallAddr { component: 0 },
            Some((false, 1u8, component)),
        ),
        OpCode::CmpCallImm { component } => (OpCode::CmpCallImm { component }, None),
        OpCode::Forward => (OpCode::Forward, None),
        OpCode::Rotate => (OpCode::Rotate, None),
        OpCode::Break => (OpCode::Break, None),
        OpCode::Battery => (OpCode::Battery, None),
        OpCode::InventoryGet => (OpCode::InventoryGet, None),
        OpCode::InventoryDrop => (OpCode::InventoryDrop, None),
        OpCode::InventoryItem => (OpCode::InventoryItem, None),
        OpCode::Output => (OpCode::Output, None),
        OpCode::Noop => (OpCode::Noop, None),
    }
}

/// Every encoding is one to three bytes, and a placeholder's offset lies
/// strictly inside its instruction's encoding.
pub proof fn lemma_placeholder_well_formed(op: OpCode<Seq<char>>)
    ensures
        1 <= spec_encode(spec_placeholder(op).0).len() <= 3,
        spec_placeholder(op).1 matches Some(fix) ==> 0 < fix.1 < spec_encode(
            spec_placeholder(op).0,
        ).len(),
{
}

impl OpCode<u8> {
    /// The canonical bytes of this resolved instruction.
    pub fn encode(&self) -> (r: Vec<u8>)
        ensures
            r@ == spec_encode(*self),
    {
        let mut r: Vec<u8> = Vec::new();
        match self {
            OpCode::Add => r.push(OP_ADD),
            OpCode::Sub => r.push(OP_SUB),
            OpCode::Mul => r.push(OP_MUL),
            OpCode::Div => r.push(OP_DIV),
            OpCode::Jmp { label } => {
                r.push(OP_JMP);
                r.push(*label);
            },
            OpCode::JmpCondition { label } => {
                r.push(OP_JMPC);
                r.push(*label);
            },
            OpCode::MovReg { to, from } => {
                r.push(OP_MOVR);
                r.push(to.id());
                r.push(from.id());
            },
            OpCode::MovImm { to, from } => {
                r.push(OP_MOVIMM);
                r.push(to.id());
                r.push(*from);
            },
            OpCode::MovAddr { to, from } => {
                r.push(OP_MOVADDR);
                r.push(to.id());
                r.push(*from);
            },
            OpCode::StackGet => r.push(OP_STACKGET),
            OpCode::StackSet => r.push(OP_STACKSET),
            OpCode::Exec => r.push(OP_EXEC),
            OpCode::Return => r.push(OP_RETURN),
            OpCode::CmpCallAddr { component } => {
                r.push(OP_CMPCALLADDR);
                r.push(*component);
            },
            OpCode::CmpCallImm { component } => {
                r.push(OP_CMPCALLIMM);
                r.push(*component);
            },
            OpCode::Forward => r.push(OP_FORWARD),
            OpCode::Rotate => r.push(OP_ROTATE),
            OpCode::Break => r.push(OP_BREAK),
            OpCode::Battery => r.push(OP_BATTERY),
            OpCode::InventoryGet => r.push(OP_INVENTORYGET),
            OpCode::InventoryDrop => r.push(OP_INVENTORYDROP),
            OpCode::InventoryItem => r.push(OP_INVENTORYITEM),
            OpCode::Output => r.push(OP_OUTPUT),
            OpCode::Noop => r.push(OP_NOOP),
        }
        proof {
            assert(r@ =~= spec_encode(*self));
        }
        r
    }
}

impl OpCode<LabelString> {
    /// Project this instruction onto its resolved form, with a zero
    /// placeholder in place of any label operand, reporting the placeholder's
    /// table, offset and name.
    pub fn placeholder_labels(&self) -> (r: (OpCode<u8>, Option<(bool, u8, LabelString)>))
        ensures
            r.0 == spec_placeholder(self@).0,
            (match r.1 {
                Some(fix) => spec_placeholder(self@).1 == Some((fix.0, fix.1, fix.2@)),
                None => spec_placeholder(self@).1 is None,
            }),
    {
        match self {
            OpCode::Add => (OpCode::Add, None),
            OpCode::Sub => (OpCode::Sub, None),
            OpCode::Mul => (OpCode::Mul, None),
            OpCode::Div => (OpCode::Div, None),
            OpCode::Jmp { label } => (
                OpCode::Jmp { label: 0 },
                Some((true, 1, label.duplicate())),
            ),
            OpCode::JmpCondition { label } => (
                OpCode::JmpCondition { label: 0 },
                Some((true, 1, label.duplicate())),
            ),
            OpCode::MovReg { to, from } => (OpCode::MovReg { to: *to, from: *from }, None),
            OpCode::MovImm { to, from } => (OpCode::MovImm { to: *to, from: *from }, None),
            OpCode::MovAddr { to, from } => (
                OpCode::MovAddr { to: *to, from: 0 },
                Some((false, 2, from.duplicate())),
            ),
            OpCode::StackGet => (OpCode::StackGet, None),
            OpCode::StackSet => (OpCode::StackSet, None),
            OpCode::Exec => (OpCode::Exec, None),
            OpCode::Return => (OpCode::Return, None),
            OpCode::CmpCallAddr { component } => (
                OpCode::CmpCallAddr { component: 0 },
                Some((false, 1, component.duplicate())),
            ),
            OpCode::CmpCallImm { component } => (OpCode::CmpCallImm { component: *component }, None),
            OpCode::Forward => (OpCode::Forward, None),
            OpCode::Rotate => (OpCode::Rotate, None),
            OpCode::Break => (OpCode::Break, None),
            OpCode::Battery => (OpCode::Battery, None),
            OpCode::InventoryGet => (OpCode::InventoryGet, None),
            OpCode::InventoryDrop => (OpCode::InventoryDrop, None),
            OpCode::InventoryItem => (OpCode::InventoryItem, None),
            OpCode::Output => (OpCode::Output, None),
            OpCode::Noop => (OpCode::Noop, None),
        }
    }
}

/// What reading the instruction at the head of `m` yields: the decoded
/// opcode, with operand fields left at their defaults, and how far the read
/// advances.
pub open spec fn spec_read_from(m: Seq<u8>) -> Result<(OpCode<u8>, u8), ReadOpCodeError> {
    if m.len() == 0 {
        Err(ReadOpCodeError::OutOfBounds)
    } else if m[0] == OP_ADD {
        Ok((OpCode::Add, 1u8))
    } else if m[0] == OP_SUB {
        Ok((OpCode::Sub, 1u8))
    } else if m[0] == OP_MUL {
        Ok((OpCode::Mul, 1u8))
    } else if m[0] == OP_DIV {
        Ok((OpCode::Div, 1u8))
    } else if m[0] == OP_JMP {
        Ok((OpCode::Jmp { label: 0u8 }, 2u8))
    } else if m[0] == OP_JMPC {
        Ok((OpCode::JmpCondition { label: 0u8 }, 1u8))
    } else if m[0] == OP_MOVR {
        Ok((OpCode::MovReg { to: Register::RGA, from: Register::RGB }, 1u8))
    } else if m[0] == OP_MOVIMM {
        Ok((OpCode::MovImm { to: Register::RGA, from: 0u8 }, 1u8))
    } else if m[0] == OP_MOVADDR {
        Ok((OpCode::MovAddr { to: Register::RGA, from: 0u8 }, 1u8))
    } else if m[0] == OP_STACKGET {
        Ok((OpCode::StackGet, 1u8))
    } else if m[0] == OP_STACKSET {
        Ok((OpCode::StackSet, 1u8))
    } else if m[0] == OP_EXEC {
        Ok((OpCode::Exec, 1u8))
    } else if m[0] == OP_RETURN {
        Ok((OpCode::Return, 1u8))
    } else if m[0] == OP_CMPCALLADDR {
        Ok((OpCode::CmpCallAddr { component: 0u8 }, 1u8))
    } else if m[0] == OP_CMPCALLIMM {
        Ok((OpCode::CmpCallImm { component: 0u8 }, 1u8))
    } else if m[0] == OP_FORWARD {
        Ok((OpCode::Forward, 1u8))
    } else if m[0] == OP_ROTATE {
        Ok((OpCode::Rotate, 1u8))
    } else if m[0] == OP_BREAK {
        Ok((OpCode::Break, 1u8))
    } else if m[0] == OP_BATTERY {
        Ok((OpCode::Battery, 1u8))
    } else if m[0] == OP_INVENTORYGET {
        Ok((OpCode::InventoryGet, 1u8))
    } else if m[0] == OP_INVENTORYDROP {
        Ok((OpCode::InventoryDrop, 1u8))
    } else if m[0] == OP_INVENTORYITEM {
        Ok((OpCode::InventoryItem, 1u8))
    } else if m[0] == OP_OUTPUT {
        Ok((OpCode::Output, 1u8))
    } else if m[0] == OP_NOOP {
        Ok((OpCode::Noop, 1u8))
    } else {
        Err(ReadOpCodeError::InvalidOpcode)
    }
}

impl OpCode<u8> {
    /// Read the instruction at the head of `memory`, without decoding its
    /// operand bytes.
    pub fn read_from(memory: &[u8]) -> (r: Result<(OpCode<u8>, u8), ReadOpCodeError>)
        ensures
            (match r {
                Ok(p) => spec_read_from(memory@) == Ok::<(OpCode<u8>, u8), ReadOpCodeError>(p),
                Err(e) => spec_read_from(memory@) == Err::<(OpCode<u8>, u8), ReadOpCodeError>(e),
            }),
    {
        if memory.len() == 0 {
            return Err(ReadOpCodeError::OutOfBounds);
        }
        let b = memory[0];
        if b == OP_ADD {
            Ok((OpCode::Add, 1))
        } else if b == OP_SUB {
            Ok((OpCode::Sub, 1))
        } else if b == OP_MUL {
            Ok((OpCode::Mul, 1))
        } else if b == OP_DIV {
            Ok((OpCode::Div, 1))
        } else if b == OP_JMP {
            Ok((OpCode::Jmp { label: 0 }, 2))
        } else if b == OP_JMPC {
            Ok((OpCode::JmpCondition { label: 0 }, 1))
        } else if b == OP_MOVR {
            Ok((OpCode::MovReg { to: Register::RGA, from: Register::RGB }, 1))
        } else if b == OP_MOVIMM {
            Ok((OpCode::MovImm { to: Register::RGA, from: 0 }, 1))
        } else if b == OP_MOVADDR {
            Ok((OpCode::MovAddr { to: Register::RGA, from: 0 }, 1))
        } else if b == OP_STACKGET {
            Ok((OpCode::StackGet, 1))
        } else if b == OP_STACKSET {
            Ok((OpCode::StackSet, 1))
        } else if b == OP_EXEC {
            Ok((OpCode::Exec, 1))
        } else if b == OP_RETURN {
            Ok((OpCode::Return, 1))
        } else if b == OP_CMPCALLADDR {
            Ok((OpCode::CmpCallAddr { component: 0 }, 1))
        } else if b == OP_CMPCALLIMM {
            Ok((OpCode::CmpCallImm { component: 0 }, 1))
        } else if b == OP_FORWARD {
            Ok((OpCode::Forward, 1))
        } else if b == OP_ROTATE {
            Ok((OpCode::Rotate, 1))
        } else if b == OP_BREAK {
            Ok((OpCode::Break, 1))
        } else if b == OP_BATTERY {
            Ok((OpCode::Battery, 1))
        } else if b == OP_INVENTORYGET {
            Ok((OpCode::InventoryGet, 1))
        } else if b == OP_INVENTORYDROP {
            Ok((OpCode::InventoryDrop, 1))
        } else if b == OP_INVENTORYITEM {
            Ok((OpCode::InventoryItem, 1))
        } else if b == OP_OUTPUT {
            Ok((OpCode::Output, 1))
        } else if b == OP_NOOP {
            Ok((OpCode::Noop, 1))
        } else {
            Err(ReadOpCodeError::InvalidOpcode)
        }
    }
}

} // verus!
