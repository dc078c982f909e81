use hogtrace::opcodes::Opcode;

#[test]
fn test_opcode_roundtrip() {
    let opcodes = [
        Opcode::PushConst,
        Opcode::Add,
        Opcode::CallFunc,
        Opcode::GetAttr,
    ];

    for opcode in opcodes {
        let byte = opcode.as_u8();
        let parsed = Opcode::from_u8(byte).unwrap();
        assert_eq!(opcode, parsed);
    }
}

#[test]
fn test_invalid_opcode() {
    assert!(Opcode::from_u8(0xFF).is_err());
}

#[test]
fn test_operand_sizes() {
    assert_eq!(Opcode::PushConst.operand_size(), 2);
    assert_eq!(Opcode::CallFunc.operand_size(), 3);
    assert_eq!(Opcode::Add.operand_size(), 0);
}
