use aic::encoding::DexError;
use aic::lir::{assemble, Instruction, Label, Register, ValueKind};

fn r(index: u8) -> Register {
    Register {
        index,
        kind: ValueKind::I32,
    }
}

#[test]
fn resolves_forward_and_backward_branches() {
    let code = assemble(&[
        Instruction::Const4 { dst: r(0), value: 0 },
        Instruction::Label(Label(1)),
        Instruction::IfGe { left: r(1), right: r(3), target: Label(3) },
        Instruction::RemIntLit8 { dst: r(2), src: r(1), value: 2 },
        Instruction::IfNez { value: r(2), target: Label(2) },
        Instruction::AddInt2Addr { dst: r(0), src: r(1) },
        Instruction::Goto16 { target: Label(4) },
        Instruction::Label(Label(2)),
        Instruction::AddIntLit8 { dst: r(0), src: r(0), value: 1 },
        Instruction::Label(Label(4)),
        Instruction::AddIntLit8 { dst: r(1), src: r(1), value: 1 },
        Instruction::Goto16 { target: Label(1) },
        Instruction::Label(Label(3)),
        Instruction::Return { value: r(0) },
    ])
    .unwrap();
    assert_eq!(code[2], 15);
    assert_eq!(code[15], 0xfff3)
}

#[test]
fn rejects_bad_register_kind() {
    let error = assemble(&[Instruction::Return {
        value: Register { index: 0, kind: ValueKind::Reference },
    }])
    .unwrap_err();
    assert!(matches!(error, DexError::InvalidInput(_)))
}

#[test]
fn rejects_missing_label() {
    assert!(assemble(&[Instruction::Goto16 { target: Label(9) }]).is_err())
}

#[test]
fn encodes_reference_instructions() {
    let a = Register { index: 1, kind: ValueKind::Reference };
    let b = Register { index: 2, kind: ValueKind::Reference };
    assert_eq!(
        assemble(&[
            Instruction::ConstString { dst: a, string: 7 },
            Instruction::MoveObject { dst: b, src: a },
            Instruction::NewInstance { dst: a, ty: 9 },
            Instruction::InvokeDirect { method: 4, args: vec![a] },
            Instruction::MoveResultObject { dst: b },
            Instruction::ReturnObject { value: b },
        ])
        .unwrap(),
        vec![0x011a, 7, 0x1207, 0x0122, 9, 0x1070, 4, 1, 0x020c, 0x0211]
    );
}

#[test]
fn rejects_scalar_in_object_instruction() {
    assert!(assemble(&[Instruction::ReturnObject { value: r(0) }]).is_err());
}

#[test]
fn encodes_boolean_instance_fields_with_typed_opcodes() {
    let value = Register { index: 1, kind: ValueKind::Bool };
    let object = Register { index: 2, kind: ValueKind::Reference };
    assert_eq!(
        assemble(&[
            Instruction::IGet { dst: value, object, field: 7 },
            Instruction::IPut { src: value, object, field: 7 },
        ])
        .unwrap(),
        vec![0x2155, 7, 0x215c, 7]
    );
}

#[test]
fn encodes_static_sdk_field_and_rejects_reference_destination() {
    assert_eq!(
        assemble(&[Instruction::SGet { dst: r(3), field: 11 }]).unwrap(),
        vec![0x0360, 11]
    );
    assert!(assemble(&[Instruction::SGet {
        dst: Register { index: 0, kind: ValueKind::Reference },
        field: 11,
    }])
    .is_err());
}

#[test]
fn encodes_object_array_creation_and_store() {
    let array = Register { index: 1, kind: ValueKind::Reference };
    let value = Register { index: 2, kind: ValueKind::Reference };
    assert_eq!(
        assemble(&[
            Instruction::NewArray { dst: array, size: r(3), ty: 9 },
            Instruction::AputObject { value, array, index: r(4) },
        ])
        .unwrap(),
        vec![0x3123, 9, 0x024d, 0x0401]
    );
}

#[test]
fn rejects_duplicate_labels_out_of_range_literals_and_wide_arguments() {
    assert_eq!(
        assemble(&[Instruction::Label(Label(1)), Instruction::Label(Label(1))]),
        Err(DexError::InvalidInput("duplicate DEX label"))
    );
    assert_eq!(
        assemble(&[Instruction::Const4 { dst: r(0), value: 8 }]),
        Err(DexError::InvalidInput("const/4 literal outside range"))
    );
    assert_eq!(
        assemble(&[Instruction::InvokeStatic { method: 1, args: vec![r(0); 6] }]),
        Err(DexError::InvalidInput("invoke-static exceeds five arguments"))
    );
    assert_eq!(
        assemble(&[Instruction::Const32 { dst: r(2), value: -2 }]).unwrap(),
        vec![0x0214, 0xfffe, 0xffff]
    );
    assert_eq!(
        assemble(&[Instruction::InvokeStatic { method: 3, args: vec![r(1), r(2), r(3), r(4), r(5)] }])
            .unwrap(),
        vec![0x5571, 3, 0x4321]
    );
}
