use lustc::driver::compile;
use lustc::error::CompilerError;

#[test]
fn compile_hello_world_exact() {
    let out = compile("def main : IO Unit := do\n  IO.println \"Hello, World!\"\n").unwrap();
    assert_eq!(out, "fn main() {\n    println!(\"{}\", String::from(\"Hello, World!\"));\n}\n\n");
}

#[test]
fn compile_eval_builds_main_exact() {
    let out = compile("#eval 1 + 2").unwrap();
    assert_eq!(out, "fn main() {\n    println!(\"{}\", 1 + 2);\n}\n");
}

#[test]
fn compile_empty_program_is_empty() {
    assert_eq!(compile("").unwrap(), "");
    assert_eq!(compile("-- only a comment\n").unwrap(), "");
}

#[test]
fn compile_factorial_exact() {
    let src = "def factorial (n : Nat) : Nat :=\n  if n == 0 then 1 else n * factorial (n - 1)\n\ndef main : IO Unit := do\n  IO.println (toString (factorial 5))\n";
    let out = compile(src).unwrap();
    assert_eq!(
        out,
        "fn factorial(n: u64) -> u64 {\n    if n == 0 { 1 } else { n * factorial((n.saturating_sub(1))) }\n}\n\nfn main() {\n    println!(\"{}\", ((factorial(5)).to_string()));\n}\n\n"
    );
}

#[test]
fn compile_reports_undefined_variable() {
    match compile("def f (x : Nat) : Nat := y + 1\n") {
        Err(CompilerError::Multiple(errs)) => {
            assert_eq!(errs.len(), 1);
            match &errs[0] {
                CompilerError::ResolveError { msg, span } => {
                    assert_eq!(msg, "undefined variable `y`");
                    assert_eq!((span.line, span.column), (1, 26));
                }
                other => panic!("expected a resolve error, got {:?}", other),
            }
        }
        other => panic!("expected resolve errors, got {:?}", other),
    }
}

#[test]
fn compile_reports_type_errors_in_order() {
    match compile("def f (x : Bool) : Nat := x + 1\n") {
        Err(CompilerError::Multiple(errs)) => {
            let msgs: Vec<String> = errs
                .iter()
                .map(|e| match e {
                    CompilerError::TypeError { msg, .. } => msg.clone(),
                    other => panic!("expected type errors, got {:?}", other),
                })
                .collect();
            assert_eq!(
                msgs,
                vec![
                    "expected numeric type, found `Bool`".to_string(),
                    "type mismatch: expected `Nat`, found `Bool`".to_string(),
                ]
            );
        }
        other => panic!("expected type errors, got {:?}", other),
    }
}

#[test]
fn compile_reports_lex_error() {
    match compile("#eval \"hello\n") {
        Err(CompilerError::LexError { msg, .. }) => assert!(msg.contains("unterminated string")),
        other => panic!("expected a lex error, got {:?}", other),
    }
}

#[test]
fn compile_reports_parse_errors() {
    match compile("def := 42\ndef := 99\n") {
        Err(CompilerError::Multiple(errs)) => {
            assert_eq!(errs.len(), 2);
            assert!(errs.iter().all(|e| matches!(e, CompilerError::ParseError { .. })));
        }
        other => panic!("expected parse errors, got {:?}", other),
    }
}

#[test]
fn compile_namespace_end_mismatch() {
    match compile("namespace Foo\ndef x : Nat := 1\nend Bar\n") {
        Err(CompilerError::Multiple(errs)) => {
            let text: Vec<String> = errs.iter().map(|e| e.to_display_string()).collect();
            assert!(text.iter().any(|t| t.contains("end Foo") || t.contains("end Bar")));
        }
        other => panic!("expected a parse error, got {:?}", other),
    }
}

#[test]
fn compile_keeps_string_without_to_string() {
    let out = compile("def main : IO Unit := do\n  IO.println (toString \"hello\")\n").unwrap();
    assert!(!out.contains(".to_string()"));
}

#[test]
fn compile_removes_parens_around_atoms() {
    let out = compile("def f (x : Nat) : Nat := (x)\n").unwrap();
    assert!(!out.contains("(x)"));
}

#[test]
fn compile_namespace_and_open() {
    let src = "namespace Math\ndef square (x : Nat) : Nat := x * x\nend Math\n\nopen Math\n\ndef main : IO Unit := do\n  IO.println (toString (square 5))\n";
    let out = compile(src).unwrap();
    assert!(out.contains("mod math {\n    pub fn square(x: u64) -> u64 {\n        x * x\n    }\n\n}\n"));
    assert!(out.contains("math::square(5)"));
}

#[test]
fn compile_structure_mk_and_field() {
    let src = "structure Point where\n  x : Nat\n  y : Nat\n\ndef main : IO Unit := do\n  let p := Point.mk 10 20\n  IO.println (toString (Point.x p))\n";
    let out = compile(src).unwrap();
    assert!(out.contains("struct Point {\n    x: u64,\n    y: u64,\n}\n"));
    assert!(out.contains("let p = Point { x: 10, y: 20 };"));
    assert!(out.contains("p.x"));
}

#[test]
fn compile_tuple_fields_are_zero_based() {
    let out = compile("def main : IO Unit := do\n  let p := (3, 4)\n  IO.println s!\"x = {p.1}, y = {p.2}\"\n").unwrap();
    assert!(out.contains("let p = (3, 4);"));
    assert!(out.contains("format!(\"x = {}, y = {}\", p.0, p.1)"));
}

#[test]
fn compile_pattern_matching_definition() {
    let src = "def factorial : Nat → Nat\n  | 0 => 1\n  | n + 1 => (n + 1) * factorial n\n\ndef main : IO Unit := do\n  IO.println (toString (factorial 5))\n";
    let out = compile(src).unwrap();
    assert!(out.contains("fn factorial(n: u64) -> u64 {\n    match n {\n        0 => 1,\n        n => {\n            let n = n.saturating_sub(1);\n"));
}

#[test]
fn compile_inductive_match() {
    let src = "inductive Color where\n  | red\n  | green\n\ndef name (c : Color) : String :=\n  match c with\n  | Color.red => \"Red\"\n  | Color.green => \"Green\"\n\ndef main : IO Unit := do\n  IO.println (name Color.green)\n";
    let out = compile(src).unwrap();
    assert!(out.contains("enum Color {\n    Red,\n    Green,\n}\n"));
    assert!(out.contains("Color::Red => String::from(\"Red\"),"));
    assert!(out.contains("name(Color::Green)"));
}

#[test]
fn compile_list_and_option_builtins() {
    let out = compile("#eval List.cons 1 List.nil\n#eval Option.some 2\n").unwrap();
    assert!(out.contains("{ let mut __v = vec![].clone(); __v.insert(0, 1); __v }"));
    assert!(out.contains("Some(2)"));
}
