use cantaloop::opcode::{OpCode, OPCODE_COUNT};

#[test]
fn discriminants_follow_declaration_order() {
    assert_eq!(OpCode::LdNum(1.5f64.to_bits()).discriminant(), 0);
    assert_eq!(OpCode::LdStr("s".to_string()).discriminant(), 1);
    assert_eq!(OpCode::LdBool(true).discriminant(), 2);
    assert_eq!(OpCode::LdFunc(10000).discriminant(), 5);
    assert_eq!(OpCode::Add.discriminant(), 6);
    assert_eq!(OpCode::AddNum.discriminant(), 12);
    assert_eq!(OpCode::Not.discriminant(), 24);
    assert_eq!(OpCode::StVar(3).discriminant(), 25);
    assert_eq!(
        OpCode::MakePartial { func_id: 1, bound_mask: 0b101, hole_count: 1 }.discriminant(),
        30
    );
    assert_eq!(OpCode::JmpIfFalse(7).discriminant(), 35);
    assert_eq!(OpCode::Jmp(0).discriminant(), 37);
    assert_eq!(OpCode::ArrayFold.discriminant(), 45);
    assert_eq!(OpCode::MakeStruct { type_id: 9, field_count: 2 }.discriminant(), 46);
    assert_eq!(OpCode::GetField(0).discriminant(), 47);
}

#[test]
fn discriminants_are_distinct_and_below_the_count() {
    let all = vec![
        OpCode::LdNum(0),
        OpCode::LdStr(String::new()),
        OpCode::LdBool(false),
        OpCode::LdVar(0),
        OpCode::LdConst(0),
        OpCode::LdFunc(0),
        OpCode::Add,
        OpCode::Sub,
        OpCode::Mul,
        OpCode::Div,
        OpCode::Mod,
        OpCode::Pow,
        OpCode::AddNum,
        OpCode::MulNum,
        OpCode::SubNum,
        OpCode::Eq,
        OpCode::Ne,
        OpCode::Gt,
        OpCode::Lt,
        OpCode::Ge,
        OpCode::Le,
        OpCode::And,
        OpCode::Or,
        OpCode::Neg,
        OpCode::Not,
        OpCode::StVar(0),
        OpCode::Pop,
        OpCode::Print,
        OpCode::CallStack(0),
        OpCode::Thunk(0),
        OpCode::MakePartial { func_id: 0, bound_mask: 0, hole_count: 0 },
        OpCode::ComposeThunk,
        OpCode::Invoke,
        OpCode::Ret,
        OpCode::RetInvoke,
        OpCode::JmpIfFalse(0),
        OpCode::JmpIfTrue(0),
        OpCode::Jmp(0),
        OpCode::MakeArray(0),
        OpCode::ArrayIter,
        OpCode::ArrayNext,
        OpCode::ArrayIndex,
        OpCode::ArraySlice,
        OpCode::ArrayMap,
        OpCode::ArrayFilter,
        OpCode::ArrayFold,
        OpCode::MakeStruct { type_id: 0, field_count: 0 },
        OpCode::GetField(0),
    ];
    assert_eq!(all.len(), OPCODE_COUNT);
    for (i, op) in all.iter().enumerate() {
        assert_eq!(op.discriminant() as usize, i, "{:?}", op);
    }
}

#[test]
fn operands_do_not_change_the_discriminant() {
    assert_eq!(OpCode::LdVar(1).discriminant(), OpCode::LdVar(99).discriminant());
    assert_eq!(OpCode::CallStack(0).discriminant(), OpCode::CallStack(5).discriminant());
}
