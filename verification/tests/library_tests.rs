use hulk::ast::{BinaryOp, Expr, ExprS, MacroParamKind};
use hulk::cli::{analyze, base64_encode, diagnostic, output_script};
use hulk::env::Env;
use hulk::interp::classes::{method_target, ClassTable, MethodTarget};
use hulk::interp::macros::plan_macro;
use hulk::interp::runtime::{check_index, enter_call, next_seed, rand_bits, FIRST_SEED, MAX_CALL_DEPTH};
use hulk::interp::subst::substitute;
use hulk::interp::value::Shape;
use hulk::interp::RuntimeError;
use hulk::parse::{parse_expr, parse_program};
use hulk::sema::table::Table;
use hulk::text::{i64_to_string, parse_i64, usize_to_string, IntError};

fn expr(src: &str) -> ExprS {
    parse_expr(src).expect("parse failed")
}

// ── base64 and the output script ─────────────────────────────────────────

#[test]
fn base64_of_three_bytes_has_no_padding() {
    assert_eq!(base64_encode(b"Man"), "TWFu");
}

#[test]
fn base64_pads_short_chunks() {
    assert_eq!(base64_encode(b"Ma"), "TWE=");
    assert_eq!(base64_encode(b"M"), "TQ==");
    assert_eq!(base64_encode(b""), "");
}

#[test]
fn base64_of_a_program() {
    assert_eq!(base64_encode(b"print(1);"), "cHJpbnQoMSk7");
}

#[test]
fn output_script_embeds_the_encoded_source() {
    let s = output_script("print(1);");
    assert!(s.starts_with("#!/bin/sh\n"));
    assert!(s.contains("printf '%s' 'cHJpbnQoMSk7' | base64 -d > \"$_T\"\n"));
    assert!(s.contains("\"$_H\" --run-stdin < \"$_T\"\n"));
    assert!(s.ends_with("exit $_E\n"));
}

#[test]
fn diagnostic_line_format() {
    assert_eq!(diagnostic((3, 14), "SEMANTIC", "Undefined variable 'x'"), "(3,14) SEMANTIC: Undefined variable 'x'");
}

// ── the front end's exit codes ───────────────────────────────────────────

#[test]
fn analyze_valid_program() {
    let o = analyze("print(1 + 2);");
    assert_eq!(o.code, 0);
    assert!(o.diagnostics.is_empty());
    assert!(o.program.is_some());
}

#[test]
fn analyze_lexical_error() {
    let o = analyze("let x = 1 in x ~ 2;");
    assert_eq!(o.code, 1);
    assert_eq!(o.diagnostics.len(), 1);
    assert!(o.diagnostics[0].contains(" LEXICAL: "), "{:?}", o.diagnostics);
    assert!(o.program.is_none());
}

#[test]
fn analyze_syntax_error() {
    let o = analyze("let x = in x;");
    assert_eq!(o.code, 2);
    assert_eq!(o.diagnostics.len(), 1);
    assert!(o.diagnostics[0].contains(" SYNTACTIC: "), "{:?}", o.diagnostics);
}

#[test]
fn analyze_semantic_errors() {
    let o = analyze("print(y);");
    assert_eq!(o.code, 3);
    assert!(!o.diagnostics.is_empty());
    assert!(o.diagnostics[0].starts_with("(1,7) SEMANTIC: "), "{:?}", o.diagnostics);
    assert!(o.program.is_none());
}

// ── scopes ───────────────────────────────────────────────────────────────

#[test]
fn env_inner_scope_shadows_and_pop_restores() {
    let mut e: Env<i32> = Env::new();
    e.define("x", 1);
    e.push();
    e.define("x", 2);
    assert_eq!(e.lookup("x"), Some(&2));
    e.pop();
    assert_eq!(e.lookup("x"), Some(&1));
}

#[test]
fn env_assign_updates_nearest_binding_only() {
    let mut e: Env<i32> = Env::new();
    e.define("x", 1);
    e.push();
    e.define("x", 2);
    assert!(e.assign("x", 5));
    assert_eq!(e.lookup("x"), Some(&5));
    e.pop();
    assert_eq!(e.lookup("x"), Some(&1));
    assert!(!e.assign("y", 3));
    assert_eq!(e.lookup("y"), None);
}

#[test]
fn env_empty_scope_is_transparent() {
    let mut e: Env<i32> = Env::new();
    e.define("a", 7);
    e.push();
    assert_eq!(e.lookup("a"), Some(&7));
    assert_eq!(e.depth(), 2);
}

#[test]
fn env_latest_binding_in_a_scope_wins() {
    let mut e: Env<i32> = Env::new();
    e.define("a", 1);
    e.define("a", 2);
    assert_eq!(e.lookup("a"), Some(&2));
}

#[test]
fn env_snapshot_sees_innermost_bindings() {
    let mut e: Env<i32> = Env::new();
    e.define("a", 1);
    e.define("b", 2);
    e.push();
    e.define("a", 3);
    let t = e.snapshot();
    assert_eq!(t.get("a"), Some(&3));
    assert_eq!(t.get("b"), Some(&2));
    assert_eq!(t.get("c"), None);
}

// ── tables ───────────────────────────────────────────────────────────────

#[test]
fn table_insert_replaces_in_place() {
    let mut t: Table<i32> = Table::new();
    t.insert("a".to_string(), 1);
    t.insert("b".to_string(), 2);
    t.insert("a".to_string(), 3);
    assert_eq!(t.len(), 2);
    assert_eq!(t.get("a"), Some(&3));
    assert_eq!(t.find("b"), Some(1));
    assert!(!t.contains_key("c"));
    assert_eq!(t.replace("b", 9), Some(2));
    assert_eq!(t.get("b"), Some(&9));
    assert_eq!(t.replace("z", 1), None);
}

// ── classes at run time ──────────────────────────────────────────────────

fn class_table(src: &str) -> ClassTable {
    let prog = parse_program(src).expect("parse failed");
    ClassTable::new(&prog.classes)
}

const ZOO: &str = "class Animal(n) { name = n; legs = 4; speak() => \"...\"; } \
                   class Dog(n) is Animal(n) { tricks = 0; speak() => \"woof\"; } \
                   class Puppy is Dog { } 1;";

#[test]
fn class_subtype_follows_bases() {
    let t = class_table(ZOO);
    assert!(t.is_class_subtype("Puppy", "Animal"));
    assert!(t.is_class_subtype("Dog", "Dog"));
    assert!(t.is_class_subtype("Dog", "Object"));
    assert!(!t.is_class_subtype("Animal", "Dog"));
}

#[test]
fn instance_of_by_shape() {
    let t = class_table(ZOO);
    assert!(t.is_instance_of(&Shape::Object("Puppy".to_string()), "Animal"));
    assert!(t.is_instance_of(&Shape::Number, "Number"));
    assert!(t.is_instance_of(&Shape::Str, "Object"));
    assert!(!t.is_instance_of(&Shape::Null, "Object"));
    assert!(!t.is_instance_of(&Shape::Array, "Number"));
}

#[test]
fn find_method_walks_up_to_the_nearest_declaration() {
    let t = class_table(ZOO);
    let (m, owner) = t.find_method("Puppy", "speak").expect("method");
    assert_eq!(m.name, "speak");
    assert_eq!(owner, "Dog");
    assert!(t.find_method("Puppy", "fly").is_none());
    assert_eq!(t.base_of("Dog"), Some("Animal".to_string()));
    assert_eq!(t.base_of("Animal"), None);
}

#[test]
fn constructor_comes_from_nearest_class_with_parameters() {
    let t = class_table(ZOO);
    assert_eq!(t.find_ctor_class("Puppy"), "Dog");
    assert_eq!(t.find_ctor_class("Animal"), "Animal");
}

#[test]
fn attribute_chain_runs_from_base_to_derived() {
    let t = class_table(ZOO);
    let chain = t.collect_attr_chain("Puppy");
    let names: Vec<&str> = chain.iter().map(|(n, _)| n.as_str()).collect();
    assert_eq!(names, vec!["name", "legs", "tricks"]);
}

#[test]
fn method_targets_of_builtin_types() {
    assert_eq!(method_target(&Shape::Str, "length").unwrap(), MethodTarget::Length);
    assert_eq!(method_target(&Shape::Array, "size").unwrap(), MethodTarget::Size);
    assert_eq!(method_target(&Shape::Number, "getType").unwrap(), MethodTarget::GetType("Number".to_string()));
    assert_eq!(
        method_target(&Shape::Object("Dog".to_string()), "speak").unwrap(),
        MethodTarget::Declared("Dog".to_string())
    );
    let e = method_target(&Shape::Boolean(true), "size").unwrap_err();
    assert_eq!(e, RuntimeError::UndefinedMethod { ty_name: "Boolean".to_string(), method: "size".to_string() });
    assert_eq!(e.message(), "'Boolean' has no method 'size'");
}

#[test]
fn shape_names_and_truth() {
    assert_eq!(Shape::Object("Dog".to_string()).name(), "Dog");
    assert_eq!(Shape::Closure.name(), "Function");
    assert!(!Shape::Boolean(false).is_truthy());
    assert!(!Shape::Null.is_truthy());
    assert!(Shape::Number.is_truthy());
    assert!(Shape::Null.is_null());
}

// ── runtime errors and bookkeeping ───────────────────────────────────────

#[test]
fn runtime_error_messages() {
    assert_eq!(RuntimeError::IndexOutOfBounds { index: -1, len: 3 }.message(), "Index -1 out of bounds (len=3)");
    assert_eq!(RuntimeError::DivisionByZero.message(), "Division by zero");
    assert_eq!(
        RuntimeError::TypeMismatch { expected: "Number".to_string(), got: "String".to_string() }.message(),
        "Type mismatch: expected Number, got String"
    );
    assert_eq!(RuntimeError::StackOverflow.message(), "Stack overflow");
}

#[test]
fn call_depth_limit() {
    assert_eq!(enter_call(0), Ok(1));
    assert_eq!(enter_call(MAX_CALL_DEPTH - 1), Ok(MAX_CALL_DEPTH));
    assert_eq!(enter_call(MAX_CALL_DEPTH), Err(RuntimeError::StackOverflow));
}

#[test]
fn index_bounds() {
    assert_eq!(check_index(2, 3), Ok(2));
    assert_eq!(check_index(3, 3), Err(RuntimeError::IndexOutOfBounds { index: 3, len: 3 }));
    assert_eq!(check_index(-1, 3), Err(RuntimeError::IndexOutOfBounds { index: -1, len: 3 }));
}

#[test]
fn rand_generator_steps() {
    let s = next_seed(FIRST_SEED);
    assert_eq!(s, 2021368500568277588);
    assert_eq!(rand_bits(s), 235318264);
    assert_eq!(rand_bits(u64::MAX), 0x7fff_ffff);
}

// ── macros ───────────────────────────────────────────────────────────────

const MAC: &str = "def m(@a, *b, $c, v) { a; b; $c; v; } 1;";

#[test]
fn plan_macro_sorts_arguments_by_parameter_kind() {
    let prog = parse_program(MAC).expect("parse failed");
    let mac = &prog.macros[0];
    assert_eq!(mac.params[0].kind, MacroParamKind::ByRef);
    let args = vec![expr("@x"), expr("y + 1"), expr("$z"), expr("5")];
    let plan = plan_macro(mac, &args).expect("plan");
    assert_eq!(plan.values, vec![("v".to_string(), 3)]);
    assert!(matches!(&plan.vsubs.get("a").unwrap().node, Expr::Var(n) if n == "x"));
    assert!(matches!(&plan.vsubs.get("b").unwrap().node, Expr::Binary { op: BinaryOp::Add, .. }));
    assert_eq!(plan.nsubs.get("c"), Some(&"z".to_string()));
    assert!(plan.vsubs.get("v").is_none());
}

#[test]
fn plan_macro_rejects_a_non_variable_by_reference() {
    let prog = parse_program(MAC).expect("parse failed");
    let args = vec![expr("1 + 2"), expr("y"), expr("$z"), expr("5")];
    let (pos, e) = plan_macro(&prog.macros[0], &args).err().expect("error");
    assert_eq!(pos, 0);
    assert_eq!(e.message(), "Undefined function 'expected @var for by-ref param 'a''");
}

#[test]
fn substitute_replaces_parameters_in_the_body() {
    let prog = parse_program(MAC).expect("parse failed");
    let mac = &prog.macros[0];
    let args = vec![expr("@x"), expr("y + 1"), expr("$z"), expr("5")];
    let plan = plan_macro(mac, &args).expect("plan");
    let out = substitute(&mac.body, &plan.vsubs, &plan.nsubs);
    let Expr::Block(items) = &out.node else { panic!("expected a block, got {:?}", out.node) };
    assert_eq!(items.len(), 4);
    assert!(matches!(&items[0].node, Expr::Var(n) if n == "x"));
    assert!(matches!(&items[1].node, Expr::Binary { op: BinaryOp::Add, .. }));
    assert!(matches!(&items[2].node, Expr::Str(s) if s == "z"));
    assert!(matches!(&items[3].node, Expr::Var(n) if n == "v"));
    assert_eq!(out.span, mac.body.span);
}

#[test]
fn substitute_without_substitutions_copies() {
    let e = expr("if (a < 2) b else c");
    let out = substitute(&e, &Table::new(), &Table::new());
    assert_eq!(out, e);
}

// ── numbers as text ──────────────────────────────────────────────────────

#[test]
fn integers_as_text() {
    assert_eq!(i64_to_string(-42), "-42");
    assert_eq!(i64_to_string(i64::MIN), "-9223372036854775808");
    assert_eq!(usize_to_string(0), "0");
}

#[test]
fn parse_i64_edges() {
    assert_eq!(parse_i64("123"), Ok(123));
    assert_eq!(parse_i64("+7"), Ok(7));
    assert_eq!(parse_i64("-9223372036854775808"), Ok(i64::MIN));
    assert_eq!(parse_i64(""), Err(IntError::Empty));
    assert_eq!(parse_i64("-"), Err(IntError::InvalidDigit));
    assert_eq!(parse_i64("12a"), Err(IntError::InvalidDigit));
    assert_eq!(parse_i64("9223372036854775808"), Err(IntError::PosOverflow));
    assert_eq!(parse_i64("-9223372036854775809"), Err(IntError::NegOverflow));
    assert_eq!(IntError::InvalidDigit.message(), "invalid digit found in string");
}

#[test]
fn env_assign_reaches_an_outer_scope() {
    let mut e: Env<i32> = Env::new();
    e.define("x", 1);
    e.push();
    e.define("y", 2);
    assert!(e.assign("x", 9));
    assert_eq!(e.lookup("y"), Some(&2));
    e.pop();
    assert_eq!(e.lookup("x"), Some(&9));
}

#[test]
fn class_table_keeps_the_later_of_two_declarations() {
    let t = class_table("class A { x = 1; } class B { } class A is B { y = 2; } 1;");
    let a = t.classes.get("A").expect("class A");
    assert_eq!(a.base, Some("B".to_string()));
    assert_eq!(a.members.len(), 1);
    assert_eq!(t.classes.len(), 2);
}

#[test]
fn find_method_gives_the_declared_parameters_and_body() {
    let t = class_table("class P { m(a: Number, b) : Number => a + b; } class Q is P { } 1;");
    let (m, owner) = t.find_method("Q", "m").expect("method");
    assert_eq!(owner, "P");
    let names: Vec<&str> = m.params.iter().map(|p| p.name.as_str()).collect();
    assert_eq!(names, vec!["a", "b"]);
    assert!(m.return_type.is_some());
    assert!(matches!(m.body.node, Expr::Binary { op: BinaryOp::Add, .. }));
}

#[test]
fn attribute_chain_keeps_each_initializer() {
    let t = class_table(ZOO);
    let chain = t.collect_attr_chain("Puppy");
    assert!(matches!(chain[0].1.node, Expr::Var(ref v) if v == "n"));
    assert!(matches!(chain[1].1.node, Expr::Number(ref s) if s == "4"));
    assert!(matches!(chain[2].1.node, Expr::Number(ref s) if s == "0"));
}
