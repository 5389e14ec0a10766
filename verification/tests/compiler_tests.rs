use gs_lang::compiler::code::{Code, Opcode};
use gs_lang::compiler::{CompiledProgram, GScriptCompiler};
use gs_lang::parser::Parser;

fn statements(src: &str) -> Vec<gs_lang::ast::Statement> {
    Parser::new(src).parse_statements_only().unwrap()
}

fn compile(src: &str) -> CompiledProgram {
    GScriptCompiler::new().compile(statements(src))
}

fn text(s: &str) -> Code {
    Code::Text(s.to_string())
}

/// Every jump of every function lands inside that function's code.
fn jumps_in_range(p: &CompiledProgram) -> bool {
    p.functions.iter().all(|f| {
        f.code.iter().all(|c| match c {
            Code::Jump(Some(a)) => *a <= f.code.len(),
            Code::FunctionRef(k) => *k < p.functions.len(),
            _ => true,
        })
    })
}

#[test]
fn assignment_to_a_global() {
    let p = compile("x = 1;");
    assert_eq!(p.functions.len(), 1);
    assert_eq!(
        p.functions[0].code,
        vec![
            Code::Op(Opcode::New),
            text("Object"),
            Code::Op(Opcode::Debug),
            Code::Int(1),
            Code::StringRef("unknown".to_string()),
            Code::Op(Opcode::LdcD),
            Code::Int(1),
            text("Number"),
            Code::Op(Opcode::LdcD),
            Code::StringRef("x".to_string()),
            text("String"),
            Code::Op(Opcode::GetDynamic),
            Code::Op(Opcode::Put),
            Code::Op(Opcode::Pop),
            Code::Op(Opcode::Halt),
        ]
    );
}

#[test]
fn greater_or_equal_is_greater_or_equal() {
    let p = compile("a >= b;");
    let ops: Vec<&Code> = p.functions[0].code.iter().filter(|c| matches!(c, Code::Op(_))).collect();
    assert_eq!(
        ops,
        vec![
            &Code::Op(Opcode::New),
            &Code::Op(Opcode::Debug),
            &Code::Op(Opcode::LdcD),
            &Code::Op(Opcode::GetDynamic),
            &Code::Op(Opcode::LdcD),
            &Code::Op(Opcode::GetDynamic),
            &Code::Op(Opcode::Gt),
            &Code::Op(Opcode::LdcD),
            &Code::Op(Opcode::GetDynamic),
            &Code::Op(Opcode::LdcD),
            &Code::Op(Opcode::GetDynamic),
            &Code::Op(Opcode::Eql),
            &Code::Op(Opcode::Or),
            &Code::Op(Opcode::Pop),
            &Code::Op(Opcode::Halt),
        ]
    );
}

#[test]
fn loops_patch_every_jump() {
    let p = compile("i = 0; while (i < 10) { if (i == 5) { break; } i++; continue; }");
    assert!(jumps_in_range(&p));
    assert!(p.functions[0].code.iter().all(|c| !matches!(c, Code::Jump(None))));
}

#[test]
fn for_loop_continue_goes_to_the_update() {
    let p = compile("for (i = 0; i < 3; i++) { continue; }");
    assert!(jumps_in_range(&p));
    assert!(p.functions[0].code.iter().all(|c| !matches!(c, Code::Jump(None))));
}

#[test]
fn break_outside_a_loop_stays_unpatched() {
    let p = compile("break;");
    assert!(p.functions[0].code.iter().any(|c| matches!(c, Code::Jump(None))));
}

#[test]
fn function_definition_becomes_a_named_function() {
    let p = compile("add = (a, b) -> { return a + b; }; add(1, 2);");
    assert_eq!(p.functions.len(), 2);
    assert_eq!(p.functions[1].debug_name, Some("add".to_string()));
    assert_eq!(p.functions[1].parameters, vec!["a".to_string(), "b".to_string()]);
    // parameters are read from their stack slots
    let code = &p.functions[1].code;
    assert!(code.windows(2).any(|w| w == [Code::Op(Opcode::Lds), Code::Int(1)]));
    assert!(code.windows(2).any(|w| w == [Code::Op(Opcode::Lds), Code::Int(2)]));
    assert_eq!(code.last(), Some(&Code::Op(Opcode::Return)));
    // the main function refers to it
    assert!(p.functions[0].code.contains(&Code::FunctionRef(1)));
    assert!(jumps_in_range(&p));
}

#[test]
fn function_without_return_returns_undefined() {
    let p = compile("f = () -> { x = 1; };");
    let code = &p.functions[1].code;
    let n = code.len();
    assert_eq!(
        &code[n - 4..],
        &[Code::Op(Opcode::LdcD), Code::Int(0), text("Undefined"), Code::Op(Opcode::Return)]
    );
}

#[test]
fn tail_call_jumps_back_to_the_start() {
    let p = compile("f = (n) -> { return f(n); };");
    let code = &p.functions[1].code;
    assert!(code.contains(&Code::Jump(Some(0))));
    assert!(code.contains(&Code::FunctionRef(1)));
    assert!(jumps_in_range(&p));
}

#[test]
fn try_catch_registers_a_handler() {
    let p = compile("try { x = 1; } catch (e) { y = e; }");
    let f = &p.functions[0];
    assert_eq!(f.catch_blocks.len(), 1);
    let b = f.catch_blocks[0];
    assert!(b.start <= b.end && b.end < b.handler && b.handler <= f.code.len());
    assert_eq!(f.code[b.end], Code::Op(Opcode::Jmp));
    assert!(jumps_in_range(&p));
}

#[test]
fn native_calls_share_a_gate_per_argument_count() {
    let p = compile("native(1, 2); native(3, 4); native(5);");
    assert_eq!(p.natives, vec![2, 1]);
}

#[test]
fn modules_become_objects() {
    let module = Parser::new("module m; x = 1; y = 2; x = 3;").parse_program().unwrap();
    let p = GScriptCompiler::new().compile_modules(vec![module]);
    assert_eq!(p.functions[0].debug_name, Some("main".to_string()));
    assert_eq!(p.functions[1].debug_name, Some("m.<init>".to_string()));
    let main = &p.functions[0].code;
    // each exported name is read from the module once
    let reads_x = main.iter().filter(|c| **c == Code::StringRef("x".to_string())).count();
    let reads_y = main.iter().filter(|c| **c == Code::StringRef("y".to_string())).count();
    assert_eq!(reads_x, 2);
    assert_eq!(reads_y, 2);
    assert_eq!(main.last(), Some(&Code::Op(Opcode::Halt)));
    assert!(jumps_in_range(&p));
}

#[test]
fn while_loop_code_and_its_exits() {
    let p = compile("while (a) { break; continue; }");
    let d = |line: i32| vec![Code::Op(Opcode::Debug), Code::Int(line), Code::StringRef("unknown".to_string())];
    let mut expected = vec![Code::Op(Opcode::New), text("Object")];
    expected.extend(d(1)); // 2..5
    // condition at 5
    expected.extend(vec![Code::Op(Opcode::LdcD), Code::StringRef("a".to_string()), text("String"), Code::Op(Opcode::GetDynamic)]);
    expected.extend(vec![Code::Op(Opcode::Not), Code::Op(Opcode::Cjmp), Code::Jump(Some(21))]); // 9..12
    expected.extend(d(1)); // scope debug, 12..15
    expected.extend(vec![Code::Op(Opcode::Jmp), Code::Jump(Some(21))]); // break, 15..17
    expected.extend(vec![Code::Op(Opcode::Jmp), Code::Jump(Some(5))]); // continue, 17..19
    expected.extend(vec![Code::Op(Opcode::Jmp), Code::Jump(Some(5))]); // back to the condition, 19..21
    expected.push(Code::Op(Opcode::Halt));
    assert_eq!(p.functions[0].code, expected);
}

#[test]
fn nested_functions_are_numbered_in_order() {
    let p = compile("f = () -> { g = () -> { return 1; }; return 2; }; h = () -> { return 3; };");
    assert_eq!(p.functions.len(), 4);
    assert_eq!(p.functions[1].debug_name, Some("f".to_string()));
    assert_eq!(p.functions[2].debug_name, Some("g".to_string()));
    assert_eq!(p.functions[3].debug_name, Some("h".to_string()));
    assert!(p.functions[1].code.contains(&Code::FunctionRef(2)));
    assert!(p.functions[0].code.contains(&Code::FunctionRef(1)));
    assert!(p.functions[0].code.contains(&Code::FunctionRef(3)));
    assert!(!p.functions[0].code.contains(&Code::FunctionRef(2)));
}

#[test]
fn catch_variable_takes_the_next_local_slot() {
    let p = compile("f = (a) -> { try { x = 1; } catch (e) { return e; } };");
    let f = &p.functions[1];
    assert_eq!(f.locals, vec!["e".to_string()]);
    assert_eq!(f.catch_blocks.len(), 1);
    let b = f.catch_blocks[0];
    // the handler stores the exception in slot 2 (after `this` and `a`)
    assert_eq!(
        &f.code[b.handler..b.handler + 3],
        &[Code::Op(Opcode::Lds), Code::Int(2), Code::Op(Opcode::Put)]
    );
    assert_eq!(f.code[b.end + 1], Code::Jump(Some(f.code.len() - 4)));
}

#[test]
fn native_call_code_names_its_gate() {
    let p = compile("native(7); native(8, 9); native(10);");
    assert_eq!(p.natives, vec![1, 2]);
    let gates: Vec<i32> = p.functions[0]
        .code
        .windows(4)
        .filter_map(|w| match (&w[0], &w[1], &w[2], &w[3]) {
            (Code::Op(Opcode::LdcD), Code::Int(g), Code::Text(t), Code::Op(Opcode::Native)) if t == "Function" => Some(*g),
            _ => None,
        })
        .collect();
    assert_eq!(gates, vec![0, 1, 0]);
}
