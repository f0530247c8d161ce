use cantaloop::hir::{
    find_constant, find_function, find_name, find_struct, find_var, lookup_import, str_equal,
    FunctionSignature, HirConstant, HirFunction, HirSpan, HirStructDef, HirVar, ValueKind,
};

#[test]
fn lookups_find_the_first_match() {
    let fs = vec![
        HirFunction { id: 3, return_type: ValueKind::Number },
        HirFunction { id: 7, return_type: ValueKind::Unknown },
        HirFunction { id: 3, return_type: ValueKind::Void },
    ];
    assert_eq!(find_function(&fs, 3), Some(0));
    assert_eq!(find_function(&fs, 7), Some(1));
    assert_eq!(find_function(&fs, 4), None);
    let vs = vec![
        HirVar { id: 1, name: "a".to_string(), kind: ValueKind::Any },
        HirVar { id: 2, name: "b".to_string(), kind: ValueKind::Boolean },
    ];
    assert_eq!(find_var(&vs, 2), Some(1));
    assert_eq!(find_var(&vs, 5), None);
    let cs = vec![HirConstant { id: 9, kind: ValueKind::String }];
    assert_eq!(find_constant(&cs, 9), Some(0));
    assert_eq!(find_constant(&cs, 0), None);
    let ss = vec![
        HirStructDef { name: "P".to_string(), type_id: 1, fields: vec![] },
        HirStructDef { name: "Q".to_string(), type_id: 2, fields: vec!["x".to_string()] },
    ];
    assert_eq!(find_struct(&ss, "Q"), Some(1));
    assert_eq!(find_struct(&ss, "R"), None);
    let ns = vec!["x".to_string(), "y".to_string(), "x".to_string()];
    assert_eq!(find_name(&ns, "x"), Some(0));
    assert_eq!(find_name(&ns, "y"), Some(1));
    assert_eq!(find_name(&ns, "z"), None);
}

#[test]
fn import_lookup_takes_the_first_binding() {
    let imports = vec![("add".to_string(), 10001), ("sub".to_string(), 10002), ("add".to_string(), 10003)];
    assert_eq!(lookup_import(&imports, "add"), Some(10001));
    assert_eq!(lookup_import(&imports, "sub"), Some(10002));
    assert_eq!(lookup_import(&imports, "mul"), None);
}

#[test]
fn string_equality() {
    assert!(str_equal("abc", "abc"));
    assert!(!str_equal("abc", "abd"));
    assert!(!str_equal("ab", "abc"));
    assert!(str_equal("", ""));
    assert!(str_equal("é", "é"));
}

#[test]
fn copies_are_equal() {
    let k = ValueKind::Array(Box::new(ValueKind::Function("num -> num".to_string())));
    assert_eq!(format!("{:?}", k.copy()), format!("{:?}", k));
    let s = FunctionSignature {
        params: vec![ValueKind::Number, ValueKind::Struct("P".to_string())],
        return_type: Box::new(ValueKind::Thunk("num".to_string())),
        is_effectful: true,
    };
    let c = s.copy();
    assert_eq!(format!("{:?}", c.params), format!("{:?}", s.params));
    assert_eq!(format!("{:?}", c.return_type), format!("{:?}", s.return_type));
    assert!(c.is_effectful);
    assert_eq!(HirSpan::new(2, 9), HirSpan { start: 2, end: 9 });
}
