use cantaloop::ast::{Block, ImportSelector, Program, Statement};
use cantaloop::modules::{
    build_module_dependency_graph, detect_circular_dependencies, extract_module_dependencies,
    extract_module_name_from_ast, topological_sort_modules, ModuleGraph,
};

fn use_stmt(path: &[&str]) -> Statement {
    Statement::Use {
        path: path.iter().map(|s| s.to_string()).collect(),
        selector: ImportSelector::Wildcard,
    }
}

fn program(blocks: Vec<Vec<Statement>>) -> Program {
    Program { blocks: blocks.into_iter().map(|statements| Block { statements }).collect() }
}

fn graph(edges: &[(&str, &[&str])]) -> ModuleGraph {
    ModuleGraph {
        modules: edges
            .iter()
            .map(|(n, ds)| (n.to_string(), ds.iter().map(|d| d.to_string()).collect()))
            .collect(),
    }
}

fn position(names: &[String], n: &str) -> usize {
    names.iter().position(|x| x == n).unwrap()
}

#[test]
fn dependencies_are_first_path_components_in_order() {
    let p = program(vec![
        vec![use_stmt(&["utils", "add"]), Statement::Continue],
        vec![use_stmt(&["math"]), use_stmt(&[]), use_stmt(&["utils", "sub"])],
    ]);
    assert_eq!(extract_module_dependencies(&p), vec!["utils", "math", "utils"]);
    assert!(extract_module_dependencies(&program(vec![])).is_empty());
}

#[test]
fn module_name_is_the_first_mod_statement() {
    let p = program(vec![
        vec![use_stmt(&["x"])],
        vec![Statement::Mod { identifier: "geometry".to_string() }],
        vec![Statement::Mod { identifier: "other".to_string() }],
    ]);
    assert_eq!(extract_module_name_from_ast(&p), Some("geometry".to_string()));
    assert_eq!(extract_module_name_from_ast(&program(vec![vec![Statement::Continue]])), None);
}

#[test]
fn graph_from_loaded_modules() {
    let loaded = vec![
        ("a".to_string(), program(vec![vec![use_stmt(&["b", "f"])]])),
        ("b".to_string(), program(vec![])),
    ];
    let g = build_module_dependency_graph(&loaded);
    assert_eq!(g.modules.len(), 2);
    assert_eq!(g.modules[0], ("a".to_string(), vec!["b".to_string()]));
    assert_eq!(g.modules[1], ("b".to_string(), vec![]));
}

#[test]
fn acyclic_graph_sorts_dependencies_first() {
    let g = graph(&[("app", &["utils", "math"]), ("utils", &["math", "std"]), ("math", &[])]);
    assert_eq!(detect_circular_dependencies(&g), Ok(()));
    let order = topological_sort_modules(&g).unwrap();
    assert_eq!(order.len(), 3);
    assert!(position(&order, "math") < position(&order, "utils"));
    assert!(position(&order, "utils") < position(&order, "app"));
}

#[test]
fn empty_graph_has_empty_order() {
    let g = graph(&[]);
    assert_eq!(detect_circular_dependencies(&g), Ok(()));
    assert_eq!(topological_sort_modules(&g), Ok(vec![]));
}

#[test]
fn two_module_cycle_is_reported() {
    let g = graph(&[("a", &["b"]), ("b", &["a"])]);
    let msg = detect_circular_dependencies(&g).unwrap_err();
    assert!(
        msg == "Circular dependency detected: a -> b -> a"
            || msg == "Circular dependency detected: b -> a -> b",
        "{}",
        msg
    );
    assert_eq!(topological_sort_modules(&g).unwrap_err(), msg);
}

#[test]
fn self_import_is_a_cycle() {
    let g = graph(&[("a", &["a"]), ("b", &[])]);
    assert_eq!(
        detect_circular_dependencies(&g),
        Err("Circular dependency detected: a -> a".to_string())
    );
}

#[test]
fn longer_cycle_names_its_modules() {
    let g = graph(&[("x", &[]), ("a", &["b"]), ("b", &["c"]), ("c", &["a", "x"])]);
    let msg = detect_circular_dependencies(&g).unwrap_err();
    let body = msg.strip_prefix("Circular dependency detected: ").unwrap();
    let parts: Vec<&str> = body.split(" -> ").collect();
    assert_eq!(parts.len(), 4);
    assert_eq!(parts[0], parts[3]);
    let mut inner: Vec<&str> = parts[..3].to_vec();
    inner.sort();
    assert_eq!(inner, vec!["a", "b", "c"]);
    // each module in the cycle imports the next one
    for w in parts.windows(2) {
        let deps = &g.modules.iter().find(|(n, _)| n == w[0]).unwrap().1;
        assert!(deps.iter().any(|d| d == w[1]));
    }
}
