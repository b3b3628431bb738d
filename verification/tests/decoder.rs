use robot_asm::opcode::{OpCode, ReadOpCodeError};
use robot_asm::register::Register;
use robot_asm::user::User;

#[test]
fn read_from_decodes_the_leading_opcode() {
    assert!(matches!(OpCode::read_from(&[0]), Ok((OpCode::Add, 1))));
    assert!(matches!(OpCode::read_from(&[4, 9]), Ok((OpCode::Jmp { label: 0 }, 2))));
    assert!(matches!(OpCode::read_from(&[5]), Ok((OpCode::JmpCondition { label: 0 }, 1))));
    assert!(matches!(
        OpCode::read_from(&[6]),
        Ok((OpCode::MovReg { to: Register::RGA, from: Register::RGB }, 1))
    ));
    assert!(matches!(OpCode::read_from(&[22]), Ok((OpCode::Output, 1))));
    assert!(matches!(OpCode::read_from(&[23]), Ok((OpCode::Noop, 1))));
}

#[test]
fn read_from_rejects_empty_memory() {
    assert!(matches!(OpCode::read_from(&[]), Err(ReadOpCodeError::OutOfBounds)));
}

#[test]
fn read_from_rejects_unknown_opcodes() {
    assert!(matches!(OpCode::read_from(&[24]), Err(ReadOpCodeError::InvalidOpcode)));
    assert!(matches!(OpCode::read_from(&[255]), Err(ReadOpCodeError::InvalidOpcode)));
}

#[test]
fn new_user_has_a_robot() {
    let _user = User::new();
}
