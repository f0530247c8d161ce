use cantaloop::ast::{BinaryOp, UnaryOp};
use cantaloop::emitter::ByteCodeEmitter;
use cantaloop::hir::{
    HirAst, HirBlock, HirExpression, HirFunction, HirStmt, HirStructDef, HirVar, ReducerType,
    ValueKind,
};
use cantaloop::opcode::OpCode;

fn num(x: f64) -> HirExpression {
    HirExpression::Number(x.to_bits())
}

fn ld(x: f64) -> OpCode {
    OpCode::LdNum(x.to_bits())
}

fn bin(lhs: HirExpression, operator: BinaryOp, rhs: HirExpression) -> HirExpression {
    HirExpression::Binary { lhs: Box::new(lhs), rhs: Box::new(rhs), operator }
}

fn block(statements: Vec<HirStmt>) -> HirBlock {
    HirBlock { statements }
}

fn program(statements: Vec<HirStmt>) -> HirAst {
    HirAst {
        blocks: vec![block(statements)],
        functions: vec![],
        scopes: vec![],
        constants: vec![],
        module_imports: vec![],
        structs: vec![],
    }
}

fn emit(p: &HirAst) -> Vec<OpCode> {
    ByteCodeEmitter::new().emit_program(p)
}

#[test]
fn assignment_of_number_arithmetic_uses_number_opcodes() {
    let p = program(vec![HirStmt::Assign { slot: 1, value: bin(num(1.0), BinaryOp::Add, num(2.0)) }]);
    assert_eq!(emit(&p), vec![ld(1.0), ld(2.0), OpCode::AddNum, OpCode::StVar(1)]);
}

#[test]
fn unknown_operands_use_generic_opcodes() {
    let p = program(vec![HirStmt::Assign {
        slot: 2,
        value: bin(HirExpression::Identifier(7), BinaryOp::Mul, num(3.0)),
    }]);
    assert_eq!(emit(&p), vec![OpCode::LdVar(7), ld(3.0), OpCode::Mul, OpCode::StVar(2)]);
}

#[test]
fn number_variables_and_constants_are_static_numbers() {
    let mut p = program(vec![HirStmt::Assign {
        slot: 2,
        value: bin(HirExpression::Identifier(7), BinaryOp::Sub, HirExpression::Constant(4)),
    }]);
    p.scopes = vec![vec![HirVar { id: 7, name: "n".to_string(), kind: ValueKind::Number }]];
    p.constants = vec![cantaloop::hir::HirConstant { id: 4, kind: ValueKind::Number }];
    assert_eq!(emit(&p), vec![OpCode::LdVar(7), OpCode::LdConst(4), OpCode::SubNum, OpCode::StVar(2)]);
    let e = ByteCodeEmitter::new();
    assert!(e.is_statically_number(&HirExpression::Identifier(7), &p));
    assert!(e.is_statically_number(&bin(num(1.0), BinaryOp::Pow, HirExpression::Constant(4)), &p));
    assert!(!e.is_statically_number(&bin(num(1.0), BinaryOp::Mod, num(2.0)), &p));
    assert!(!e.is_statically_number(&HirExpression::Identifier(8), &p));
    assert!(!e.is_statically_number(&HirExpression::String("1".to_string()), &p));
}

#[test]
fn compound_assignments_load_add_store() {
    let p = program(vec![
        HirStmt::AssignIncrement { slot: 3, value: num(1.0) },
        HirStmt::AssignDecrement { slot: 3, value: num(2.0) },
    ]);
    assert_eq!(
        emit(&p),
        vec![
            OpCode::LdVar(3),
            ld(1.0),
            OpCode::Add,
            OpCode::StVar(3),
            OpCode::LdVar(3),
            ld(2.0),
            OpCode::Sub,
            OpCode::StVar(3),
        ]
    );
}

#[test]
fn expression_statement_pops_unless_void() {
    let call = |id| HirExpression::FunctionCall { function_id: id, args: vec![num(3.0)], invoke: true };
    let mut p = program(vec![HirStmt::Expression(call(5)), HirStmt::Expression(call(6))]);
    p.functions = vec![
        HirFunction { id: 5, return_type: ValueKind::Number },
        HirFunction { id: 6, return_type: ValueKind::Unknown },
    ];
    assert_eq!(
        emit(&p),
        vec![
            ld(3.0),
            OpCode::LdFunc(5),
            OpCode::Thunk(1),
            OpCode::Invoke,
            OpCode::Pop,
            ld(3.0),
            OpCode::LdFunc(6),
            OpCode::Thunk(1),
            OpCode::Invoke,
        ]
    );
    let e = ByteCodeEmitter::new();
    assert!(e.is_void_expression(&call(6), &p));
    assert!(!e.is_void_expression(&call(5), &p));
    assert!(!e.is_void_expression(&num(1.0), &p));
}

#[test]
fn placeholder_constant_statement_emits_nothing() {
    let p = program(vec![HirStmt::Expression(HirExpression::Constant(0)), HirStmt::Nop]);
    assert_eq!(emit(&p), vec![]);
}

#[test]
fn uninvoked_call_is_a_thunk() {
    let p = program(vec![HirStmt::Assign {
        slot: 1,
        value: HirExpression::FunctionCall { function_id: 9, args: vec![], invoke: false },
    }]);
    assert_eq!(emit(&p), vec![OpCode::LdFunc(9), OpCode::Thunk(0), OpCode::StVar(1)]);
}

#[test]
fn if_else_jumps() {
    let p = program(vec![HirStmt::If {
        arms: vec![(HirExpression::Boolean(true), block(vec![HirStmt::Assign { slot: 1, value: num(1.0) }]))],
        else_block: block(vec![HirStmt::Assign { slot: 1, value: num(2.0) }]),
    }]);
    assert_eq!(
        emit(&p),
        vec![
            OpCode::LdBool(true),
            OpCode::JmpIfFalse(5),
            ld(1.0),
            OpCode::StVar(1),
            OpCode::Jmp(7),
            ld(2.0),
            OpCode::StVar(1),
        ]
    );
}

#[test]
fn if_chain_jumps_to_next_condition() {
    let p = program(vec![HirStmt::If {
        arms: vec![
            (HirExpression::Identifier(1), block(vec![HirStmt::Assign { slot: 2, value: num(1.0) }])),
            (HirExpression::Identifier(3), block(vec![])),
        ],
        else_block: block(vec![]),
    }]);
    assert_eq!(
        emit(&p),
        vec![
            OpCode::LdVar(1),
            OpCode::JmpIfFalse(5),
            ld(1.0),
            OpCode::StVar(2),
            OpCode::Jmp(8),
            OpCode::LdVar(3),
            OpCode::JmpIfFalse(8),
            OpCode::Jmp(8),
        ]
    );
}

#[test]
fn match_with_literal_and_default_cases() {
    let p = program(vec![HirStmt::Match {
        expression: HirExpression::Identifier(1),
        cases: vec![
            (Some(num(1.0)), block(vec![HirStmt::Assign { slot: 2, value: HirExpression::String("one".to_string()) }])),
            (None, block(vec![HirStmt::Assign { slot: 2, value: HirExpression::String("other".to_string()) }])),
        ],
    }]);
    assert_eq!(
        emit(&p),
        vec![
            OpCode::LdVar(1),
            OpCode::StVar(999999),
            OpCode::LdVar(999999),
            ld(1.0),
            OpCode::Eq,
            OpCode::JmpIfFalse(9),
            OpCode::LdStr("one".to_string()),
            OpCode::StVar(2),
            OpCode::Jmp(12),
            OpCode::LdStr("other".to_string()),
            OpCode::StVar(2),
            OpCode::Jmp(12),
        ]
    );
}

#[test]
fn match_range_pattern_reloads_the_value() {
    // case > 0 && < 10
    let pat = bin(
        bin(HirExpression::Identifier(1), BinaryOp::Gt, num(0.0)),
        BinaryOp::And,
        bin(HirExpression::Identifier(1), BinaryOp::Lt, num(10.0)),
    );
    let p = program(vec![HirStmt::Match {
        expression: HirExpression::Identifier(1),
        cases: vec![(Some(pat), block(vec![]))],
    }]);
    assert_eq!(
        emit(&p),
        vec![
            OpCode::LdVar(1),
            OpCode::StVar(999999),
            OpCode::LdVar(999999),
            ld(0.0),
            OpCode::Gt,
            OpCode::LdVar(999999),
            ld(10.0),
            OpCode::Lt,
            OpCode::And,
            OpCode::JmpIfFalse(11),
            OpCode::Jmp(11),
        ]
    );
}

#[test]
fn returns_and_tail_calls() {
    let p = program(vec![
        HirStmt::Return { value: num(0.0) },
        HirStmt::Return {
            value: HirExpression::FunctionCall {
                function_id: 7,
                args: vec![HirExpression::Identifier(2)],
                invoke: true,
            },
        },
    ]);
    assert_eq!(
        emit(&p),
        vec![ld(0.0), OpCode::Ret, OpCode::LdVar(2), OpCode::LdFunc(7), OpCode::Thunk(1), OpCode::RetInvoke]
    );
}

#[test]
fn plain_loop_with_break() {
    let p = program(vec![HirStmt::Loop {
        init_vars: vec![(1, num(0.0))],
        body: block(vec![
            HirStmt::Assign { slot: 1, value: bin(HirExpression::Identifier(1), BinaryOp::Add, num(1.0)) },
            HirStmt::If {
                arms: vec![(
                    bin(HirExpression::Identifier(1), BinaryOp::Gt, num(10.0)),
                    block(vec![HirStmt::Break { value: None }]),
                )],
                else_block: block(vec![]),
            },
        ]),
        break_slot: None,
    }]);
    assert_eq!(
        emit(&p),
        vec![
            ld(0.0),
            OpCode::StVar(1),
            OpCode::LdVar(1),
            ld(1.0),
            OpCode::Add,
            OpCode::StVar(1),
            OpCode::LdVar(1),
            ld(10.0),
            OpCode::Gt,
            OpCode::JmpIfFalse(12),
            OpCode::Jmp(13),
            OpCode::Jmp(12),
            OpCode::Jmp(2),
        ]
    );
}

#[test]
fn guarded_loop_continue_jumps_to_increment() {
    // for i in 0..3 { continue; }  lowered as a guarded loop with an increment
    let p = program(vec![HirStmt::Loop {
        init_vars: vec![(1, num(0.0))],
        body: block(vec![
            HirStmt::If {
                arms: vec![(
                    bin(HirExpression::Identifier(1), BinaryOp::Ge, num(3.0)),
                    block(vec![HirStmt::Break { value: None }]),
                )],
                else_block: block(vec![]),
            },
            HirStmt::Continue,
            HirStmt::Assign { slot: 1, value: bin(HirExpression::Identifier(1), BinaryOp::Add, num(1.0)) },
        ]),
        break_slot: None,
    }]);
    assert_eq!(
        emit(&p),
        vec![
            ld(0.0),
            OpCode::StVar(1),
            OpCode::LdVar(1),
            ld(3.0),
            OpCode::Ge,
            OpCode::JmpIfTrue(12),
            OpCode::Jmp(7),
            OpCode::LdVar(1),
            ld(1.0),
            OpCode::Add,
            OpCode::StVar(1),
            OpCode::Jmp(2),
            OpCode::Jmp(13),
        ]
    );
}

#[test]
fn loop_expression_yields_its_break_value() {
    let p = program(vec![HirStmt::Assign {
        slot: 4,
        value: HirExpression::Loop {
            init_vars: vec![],
            body: block(vec![HirStmt::Break { value: Some(num(5.0)) }]),
            break_slot: Some(9),
        },
    }]);
    assert_eq!(
        emit(&p),
        vec![ld(5.0), OpCode::StVar(9), OpCode::Jmp(4), OpCode::Jmp(0), OpCode::LdVar(9), OpCode::StVar(4)]
    );
}

#[test]
fn partial_call_pushes_bound_arguments_in_reverse() {
    let p = program(vec![HirStmt::Expression(HirExpression::PartialCall {
        func_id: 4,
        bound: vec![Some(num(1.0)), None, Some(num(3.0))],
    })]);
    assert_eq!(
        emit(&p),
        vec![ld(3.0), ld(1.0), OpCode::MakePartial { func_id: 4, bound_mask: 0b101, hole_count: 1 }, OpCode::Pop]
    );
}

#[test]
fn composition_pushes_second_then_first() {
    let p = program(vec![HirStmt::Assign {
        slot: 3,
        value: HirExpression::ComposeThunk {
            first: Box::new(HirExpression::Identifier(1)),
            second: Box::new(HirExpression::Identifier(2)),
        },
    }]);
    assert_eq!(emit(&p), vec![OpCode::LdVar(2), OpCode::LdVar(1), OpCode::ComposeThunk, OpCode::StVar(3)]);
}

#[test]
fn postfix_invocations() {
    let p = program(vec![
        HirStmt::Assign {
            slot: 3,
            value: HirExpression::PostfixInvoke { operand: Box::new(HirExpression::Identifier(2)), args: None },
        },
        HirStmt::Assign {
            slot: 3,
            value: HirExpression::PostfixInvoke {
                operand: Box::new(HirExpression::Identifier(2)),
                args: Some(vec![num(1.0)]),
            },
        },
    ]);
    assert_eq!(
        emit(&p),
        vec![
            OpCode::LdVar(2),
            OpCode::Invoke,
            OpCode::StVar(3),
            ld(1.0),
            OpCode::LdVar(2),
            OpCode::Thunk(1),
            OpCode::Invoke,
            OpCode::StVar(3),
        ]
    );
}

#[test]
fn unary_operators() {
    let p = program(vec![HirStmt::Assign {
        slot: 1,
        value: HirExpression::Unary {
            operand: Box::new(HirExpression::Unary {
                operand: Box::new(HirExpression::Boolean(false)),
                operator: UnaryOp::Not,
            }),
            operator: UnaryOp::Neg,
        },
    }]);
    assert_eq!(emit(&p), vec![OpCode::LdBool(false), OpCode::Not, OpCode::Neg, OpCode::StVar(1)]);
}

#[test]
fn arrays_indexing_and_slices() {
    let sentinel = ld(-999999999.0);
    let p = program(vec![
        HirStmt::Assign { slot: 1, value: HirExpression::Array(vec![num(1.0), num(2.0)]) },
        HirStmt::Assign {
            slot: 2,
            value: HirExpression::ArrayIndex {
                array: Box::new(HirExpression::Identifier(1)),
                index: Box::new(num(0.0)),
            },
        },
        HirStmt::Assign {
            slot: 3,
            value: HirExpression::ArraySlice {
                array: Box::new(HirExpression::Identifier(1)),
                start: Some(Box::new(num(1.0))),
                end: None,
                step: None,
                inclusive_end: true,
            },
        },
    ]);
    assert_eq!(
        emit(&p),
        vec![
            ld(1.0),
            ld(2.0),
            OpCode::MakeArray(2),
            OpCode::StVar(1),
            OpCode::LdVar(1),
            ld(0.0),
            OpCode::ArrayIndex,
            OpCode::StVar(2),
            OpCode::LdVar(1),
            ld(1.0),
            sentinel.clone(),
            sentinel,
            ld(1.0),
            OpCode::ArraySlice,
            OpCode::StVar(3),
        ]
    );
}

#[test]
fn sum_reducer_loops_over_the_array() {
    let p = program(vec![HirStmt::Assign {
        slot: 2,
        value: HirExpression::Reducer {
            array: Box::new(HirExpression::Identifier(1)),
            reducer_type: ReducerType::Sum,
            reducer_args: vec![],
        },
    }]);
    assert_eq!(
        emit(&p),
        vec![
            OpCode::LdVar(1),
            OpCode::ArrayIter,
            ld(0.0),
            OpCode::StVar(999998),
            OpCode::StVar(999996),
            OpCode::LdVar(999996),
            OpCode::ArrayNext,
            OpCode::StVar(999995),
            OpCode::StVar(999997),
            OpCode::LdVar(999998),
            OpCode::LdVar(999997),
            OpCode::Add,
            OpCode::StVar(999998),
            OpCode::LdVar(999995),
            OpCode::JmpIfFalse(16),
            OpCode::Jmp(5),
            OpCode::LdVar(999998),
            OpCode::StVar(2),
        ]
    );
}

#[test]
fn map_and_fold_reducers() {
    let mut p = program(vec![
        HirStmt::Assign {
            slot: 2,
            value: HirExpression::Reducer {
                array: Box::new(HirExpression::Identifier(1)),
                reducer_type: ReducerType::Mapping,
                reducer_args: vec![HirExpression::Closure { function_id: 50 }],
            },
        },
        HirStmt::Assign {
            slot: 3,
            value: HirExpression::Reducer {
                array: Box::new(HirExpression::Identifier(1)),
                reducer_type: ReducerType::Fold,
                reducer_args: vec![num(0.0), HirExpression::Identifier(8)],
            },
        },
    ]);
    p.scopes = vec![vec![HirVar { id: 8, name: "add".to_string(), kind: ValueKind::Any }]];
    p.module_imports = vec![("math".to_string(), vec![("add".to_string(), 10001)])];
    p.functions = vec![HirFunction { id: 10001, return_type: ValueKind::Number }];
    assert_eq!(
        emit(&p),
        vec![
            OpCode::LdVar(1),
            OpCode::LdFunc(50),
            OpCode::ArrayMap,
            OpCode::StVar(2),
            OpCode::LdVar(1),
            ld(0.0),
            OpCode::LdFunc(10001),
            OpCode::ArrayFold,
            OpCode::StVar(3),
        ]
    );
    let e = ByteCodeEmitter::new();
    assert_eq!(e.resolve_identifier_to_function_id(8, &p), Some(10001));
    assert_eq!(e.resolve_identifier_to_function_id(9, &p), None);
    p.functions = vec![];
    assert_eq!(e.resolve_identifier_to_function_id(8, &p), None);
}

#[test]
fn structs_are_built_in_declared_field_order() {
    let mut p = program(vec![
        HirStmt::Assign {
            slot: 3,
            value: HirExpression::StructInit {
                struct_name: "Point".to_string(),
                fields: vec![("y".to_string(), num(2.0)), ("x".to_string(), num(1.0))],
            },
        },
        HirStmt::Assign {
            slot: 4,
            value: HirExpression::FieldAccess {
                base: Box::new(HirExpression::Identifier(3)),
                field_name: "y".to_string(),
            },
        },
    ]);
    p.structs = vec![HirStructDef {
        name: "Point".to_string(),
        type_id: 77,
        fields: vec!["x".to_string(), "y".to_string()],
    }];
    assert_eq!(
        emit(&p),
        vec![
            ld(1.0),
            ld(2.0),
            OpCode::MakeStruct { type_id: 77, field_count: 2 },
            OpCode::StVar(3),
            OpCode::LdVar(3),
            OpCode::GetField(1),
            OpCode::StVar(4),
        ]
    );
}

#[test]
fn blocks_follow_one_another() {
    let mut p = program(vec![HirStmt::Assign { slot: 1, value: num(1.0) }]);
    p.blocks.push(block(vec![HirStmt::Assign { slot: 2, value: num(2.0) }]));
    assert_eq!(emit(&p), vec![ld(1.0), OpCode::StVar(1), ld(2.0), OpCode::StVar(2)]);
    let mut ops = vec![OpCode::Pop];
    let mut e = ByteCodeEmitter::new();
    e.emit_block(&mut ops, &p.blocks[1], &p);
    assert_eq!(ops, vec![OpCode::Pop, ld(2.0), OpCode::StVar(2)]);
    e.emit_statement(&mut ops, &HirStmt::Return { value: num(0.0) }, &p);
    assert_eq!(ops.len(), 5);
    assert_eq!(ops[4], OpCode::Ret);
}

fn jump_targets(ops: &[OpCode]) -> Vec<usize> {
    ops.iter()
        .filter_map(|op| match op {
            OpCode::Jmp(t) | OpCode::JmpIfFalse(t) | OpCode::JmpIfTrue(t) => Some(*t),
            _ => None,
        })
        .collect()
}

#[test]
fn every_jump_lands_inside_the_program() {
    // nested loops with break, continue, an if chain and a match inside
    let inner = HirStmt::Loop {
        init_vars: vec![],
        body: block(vec![
            HirStmt::Match {
                expression: HirExpression::Identifier(2),
                cases: vec![
                    (Some(num(0.0)), block(vec![HirStmt::Break { value: Some(num(1.0)) }])),
                    (None, block(vec![HirStmt::Continue])),
                ],
            },
        ]),
        break_slot: Some(7),
    };
    let p = program(vec![HirStmt::Loop {
        init_vars: vec![(1, num(0.0))],
        body: block(vec![
            HirStmt::If {
                arms: vec![(
                    bin(HirExpression::Identifier(1), BinaryOp::Ge, num(3.0)),
                    block(vec![HirStmt::Break { value: None }]),
                )],
                else_block: block(vec![]),
            },
            inner,
            HirStmt::If {
                arms: vec![
                    (HirExpression::Boolean(false), block(vec![HirStmt::Continue])),
                    (HirExpression::Boolean(true), block(vec![])),
                ],
                else_block: block(vec![HirStmt::Nop]),
            },
            HirStmt::Assign { slot: 1, value: bin(HirExpression::Identifier(1), BinaryOp::Add, num(1.0)) },
        ]),
        break_slot: None,
    }]);
    let ops = emit(&p);
    let targets = jump_targets(&ops);
    assert!(!targets.is_empty());
    for t in targets {
        assert!(t <= ops.len(), "jump to {} past {} instructions", t, ops.len());
    }
}

#[test]
fn continue_in_a_loop_expression_jumps_to_the_loop_start() {
    let p = program(vec![]);
    let mut e = ByteCodeEmitter::new();
    let mut ops = vec![ld(0.0)];
    e.emit_statement(
        &mut ops,
        &HirStmt::Assign {
            slot: 1,
            value: HirExpression::Loop {
                init_vars: vec![],
                body: block(vec![HirStmt::Continue]),
                break_slot: None,
            },
        },
        &p,
    );
    assert_eq!(ops, vec![ld(0.0), OpCode::Jmp(1), OpCode::Jmp(1), OpCode::StVar(1)]);
}
