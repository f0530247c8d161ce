use cantaloop::doc::DocBlock;
use cantaloop::engine::{Arity, Engine, StdFunction, StdModule, StdStruct};
use cantaloop::entity_id::EntityId;
use cantaloop::hir::{FunctionSignature, ValueKind};

fn sig(n: usize) -> FunctionSignature {
    FunctionSignature {
        params: (0..n).map(|_| ValueKind::Number).collect(),
        return_type: Box::new(ValueKind::Number),
        is_effectful: false,
    }
}

fn func(name: &'static str, n: usize, tag: u32) -> StdFunction<u32> {
    StdFunction { name, signature: sig(n), arity: Arity::Fixed(n), impl_fn: tag, docs: None }
}

fn module(
    name: &'static str,
    functions: Vec<StdFunction<u32>>,
    structs: Vec<StdStruct<u32>>,
    submodules: Vec<StdModule<u32>>,
) -> StdModule<u32> {
    StdModule { name, functions, structs, submodules, docs: None }
}

fn names(e: &Engine<u32>) -> Vec<(String, u32)> {
    e.native_function_descriptors().iter().map(|d| (d.name.clone(), d.id.as_u32())).collect()
}

#[test]
fn add_native_function_hands_out_consecutive_ids() {
    let mut e: Engine<u32> = Engine::new();
    let a = e.add_native_function("print", sig(1), Arity::Fixed(1), 7);
    let b = e.add_native_function("sum", sig(2), Arity::Variadic { min: 2 }, 8);
    assert_eq!(a, EntityId::new(10000));
    assert_eq!(b, EntityId::new(10001));
    assert!(a.is_native_function() && b.is_native_function());
    assert_eq!(names(&e), vec![("print".to_string(), 10000), ("sum".to_string(), 10001)]);
    let d = &e.native_function_descriptors()[1];
    assert_eq!(d.arity, Arity::Variadic { min: 2 });
    assert_eq!(d.signature.params.len(), 2);
    assert!(d.docs.is_none());
    assert_eq!(e.functions.len(), 2);
    assert_eq!(e.functions[1].0, b);
    assert_eq!(e.functions[1].1.func, 8);
    assert_eq!(e.functions[1].1.arity, Arity::Variadic { min: 2 });
}

#[test]
fn loading_a_module_describes_each_function_twice() {
    let mut e: Engine<u32> = Engine::new();
    let mut round = func("round", 1, 1);
    round.docs = Some(DocBlock::from_text("@returns the rounded number"));
    let m = module("math", vec![round, func("max", 2, 2)], vec![], vec![]);
    e.load_stdlib(&m, "");
    assert_eq!(
        names(&e),
        vec![
            ("math.round".to_string(), 10000),
            ("round".to_string(), 10000),
            ("math.max".to_string(), 10001),
            ("max".to_string(), 10001),
        ]
    );
    let d = &e.native_function_descriptors()[1];
    assert_eq!(d.docs.as_ref().unwrap().tags.returns.as_deref(), Some("the rounded number"));
    assert_eq!(e.functions.len(), 2);
    assert_eq!(e.functions[0].1.func, 1);
    assert_eq!(e.functions[1].1.func, 2);
    assert_eq!(e.functions[1].1.arity, Arity::Fixed(2));
}

#[test]
fn submodules_are_registered_under_the_module_path() {
    let mut e: Engine<u32> = Engine::new();
    let inner = module("trig", vec![func("sin", 1, 3)], vec![], vec![]);
    let m = module("math", vec![func("abs", 1, 1)], vec![], vec![inner]);
    e.register_module(&m, "std");
    assert_eq!(
        names(&e),
        vec![
            ("std.math.abs".to_string(), 10000),
            ("abs".to_string(), 10000),
            ("std.math.trig.sin".to_string(), 10001),
            ("sin".to_string(), 10001),
        ]
    );
}

#[test]
fn register_modules_registers_each_at_top_level() {
    let mut e: Engine<u32> = Engine::new();
    e.add_native_function("print", sig(1), Arity::Fixed(1), 0);
    let a = module("a", vec![func("f", 0, 1)], vec![], vec![]);
    let b = module("b", vec![func("g", 0, 2)], vec![], vec![]);
    e.register_modules(&[&a, &b]);
    assert_eq!(
        names(&e),
        vec![
            ("print".to_string(), 10000),
            ("a.f".to_string(), 10001),
            ("f".to_string(), 10001),
            ("b.g".to_string(), 10002),
            ("g".to_string(), 10002),
        ]
    );
    assert_eq!(e.functions.iter().map(|(id, _)| id.as_u32()).collect::<Vec<_>>(), vec![10000, 10001, 10002]);
}

#[test]
fn modules_with_structs_register_without_functions() {
    let mut e: Engine<u32> = Engine::new();
    let point = StdStruct {
        name: "Point",
        fields: vec![("x", ValueKind::Number), ("y", ValueKind::Number)],
        methods: vec![],
        docs: None,
    };
    let m = module("geo", vec![], vec![point], vec![module("empty", vec![], vec![], vec![])]);
    e.register_module(&m, "");
    assert!(e.native_function_descriptors().is_empty());
    assert!(e.functions.is_empty());
    // the next function still gets the first native identity
    let id = e.add_native_function("f", sig(0), Arity::Fixed(0), 9);
    assert_eq!(id.as_u32(), 10000);
}

#[test]
fn native_modules_group_qualified_descriptors() {
    let mut e: Engine<u32> = Engine::new();
    e.add_native_function("print", sig(1), Arity::Fixed(1), 0);
    let math = module("math", vec![func("round", 1, 1), func("max", 2, 2)], vec![], vec![]);
    let point = StdStruct {
        name: "Point",
        fields: vec![("x", ValueKind::Number), ("y", ValueKind::Number)],
        methods: vec![],
        docs: None,
    };
    let geo = module("geo", vec![func("dist", 2, 3)], vec![point], vec![]);
    e.register_modules(&[&math, &geo]);
    // a later descriptor of the same qualified name replaces the earlier one
    let later = e.add_native_function("math.round", sig(1), Arity::Fixed(1), 4);
    assert_eq!(later.as_u32(), 10004);
    let mods = e.native_modules();
    assert_eq!(mods.len(), 2);
    assert_eq!(mods[0].name, "math");
    assert_eq!(
        mods[0].functions.iter().map(|(n, id)| (n.as_str(), id.as_u32())).collect::<Vec<_>>(),
        vec![("round", 10004), ("max", 10002)]
    );
    assert!(mods[0].structs.is_empty());
    assert_eq!(mods[1].name, "geo");
    assert_eq!(
        mods[1].functions.iter().map(|(n, id)| (n.as_str(), id.as_u32())).collect::<Vec<_>>(),
        vec![("dist", 10003)]
    );
    assert_eq!(mods[1].structs.len(), 1);
    assert_eq!(mods[1].structs[0].name, "Point");
    assert_eq!(
        mods[1].structs[0].fields.iter().map(|(n, _)| n.as_str()).collect::<Vec<_>>(),
        vec!["x", "y"]
    );
}

#[test]
fn nested_module_names_split_at_the_first_dot() {
    let mut e: Engine<u32> = Engine::new();
    let inner = module("trig", vec![func("sin", 1, 3)], vec![], vec![]);
    let m = module("math", vec![], vec![], vec![inner]);
    e.register_module(&m, "");
    let mods = e.native_modules();
    assert_eq!(mods.len(), 1);
    assert_eq!(mods[0].name, "math");
    assert_eq!(mods[0].functions.len(), 1);
    assert_eq!(mods[0].functions[0].0, "trig.sin");
}

#[test]
fn contains_function_knows_registered_ids() {
    let mut e: Engine<u32> = Engine::new();
    let id = e.add_native_function("f", sig(0), Arity::Fixed(0), 1);
    assert!(e.contains_function(id));
    assert!(!e.contains_function(EntityId::new(10001)));
    assert!(!e.contains_function(EntityId::new(3)));
}

#[test]
fn native_function_id_by_name_takes_the_first_match() {
    let mut e: Engine<u32> = Engine::new();
    let m = module("math", vec![func("add", 2, 1)], vec![], vec![]);
    e.register_module(&m, "");
    e.add_native_function("add", sig(2), Arity::Fixed(2), 9);
    let ds = e.native_function_descriptors();
    assert_eq!(cantaloop::engine::native_function_id_by_name(ds, "math.add"), Some(EntityId::new(10000)));
    assert_eq!(cantaloop::engine::native_function_id_by_name(ds, "add"), Some(EntityId::new(10000)));
    assert_eq!(cantaloop::engine::native_function_id_by_name(ds, "sub"), None);
}

#[test]
fn registering_modules_in_turn_matches_registering_them_at_once() {
    let a = module("a", vec![func("f", 0, 1)], vec![], vec![module("inner", vec![func("h", 1, 3)], vec![], vec![])]);
    let b = module("b", vec![func("g", 0, 2)], vec![], vec![]);
    let mut at_once: Engine<u32> = Engine::new();
    at_once.register_modules(&[&a, &b]);
    let mut in_turn: Engine<u32> = Engine::new();
    in_turn.register_modules(&[&a]);
    in_turn.register_module(&b, "");
    assert_eq!(names(&at_once), names(&in_turn));
    assert_eq!(
        names(&in_turn),
        vec![
            ("a.f".to_string(), 10000),
            ("f".to_string(), 10000),
            ("a.inner.h".to_string(), 10001),
            ("h".to_string(), 10001),
            ("b.g".to_string(), 10002),
            ("g".to_string(), 10002),
        ]
    );
}
