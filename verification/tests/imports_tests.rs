use gs_lang::imports::{module_order, ImportResolver};
use gs_lang::parser::Parser;

fn names(v: &[&str]) -> Vec<String> {
    v.iter().map(|s| s.to_string()).collect()
}

#[test]
fn each_module_is_loaded_once_breadth_first() {
    // main imports a and b; a imports b and c; c imports a.
    let mut r = ImportResolver::new(&names(&["a", "b"]));
    let mut order = Vec::new();
    while let Some(m) = r.next_module() {
        let imports = match m.as_str() {
            "a" => names(&["b", "c"]),
            "c" => names(&["a"]),
            _ => vec![],
        };
        r.module_loaded(&imports);
        order.push(m);
    }
    assert_eq!(order, names(&["a", "b", "c"]));
}

#[test]
fn repeated_imports_are_skipped() {
    let mut r = ImportResolver::new(&names(&["x", "x", "y", "x"]));
    assert_eq!(r.next_module(), Some("x".to_string()));
    assert_eq!(r.next_module(), Some("y".to_string()));
    assert_eq!(r.next_module(), None);
    r.module_loaded(&names(&["y", "z"]));
    assert_eq!(r.next_module(), Some("z".to_string()));
    assert_eq!(r.next_module(), None);
}

#[test]
fn modules_compile_last_loaded_first_then_main() {
    let parse = |src: &str| Parser::new(src).parse_program().unwrap();
    let order = module_order(vec![parse("module a;"), parse("module b;")], parse("module main;"));
    let names: Vec<&str> = order.iter().map(|m| m.name.as_str()).collect();
    assert_eq!(names, vec!["b", "a", "main"]);
}

#[test]
fn the_rest_of_the_queue_waits_after_a_hand_out() {
    // a, b and c wait; handing out a keeps b and c waiting, in order.
    let mut r = ImportResolver::new(&names(&["a", "b", "c"]));
    assert_eq!(r.next_module(), Some("a".to_string()));
    r.module_loaded(&names(&["d", "a"]));
    assert_eq!(r.next_module(), Some("b".to_string()));
    assert_eq!(r.next_module(), Some("c".to_string()));
    assert_eq!(r.next_module(), Some("d".to_string()));
    assert_eq!(r.next_module(), None);
}
