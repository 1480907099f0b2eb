use lustc::ast::Decl;
use lustc::codegen::{to_pascal_case, to_snake_case};
use lustc::driver::compile;
use lustc::error::CompilerError;
use lustc::lexer::Lexer;
use lustc::loader::parse_source;
use lustc::token::TokenKind;
use lustc::typechecker::TypeChecker;

fn typecheck(src: &str) -> Result<(), Vec<CompilerError>> {
    let decls: Vec<Decl> = parse_source(src).unwrap();
    TypeChecker::new().check(&decls)
}

#[test]
fn layout_tokens_balance_and_the_stream_ends_once() {
    let tokens = Lexer::new("def f (x : Nat) : Nat :=\n  match x with\n    | 0 => 1\n    | n => n\n")
        .tokenize()
        .unwrap();
    let indents = tokens.iter().filter(|t| t.kind == TokenKind::Indent).count();
    let dedents = tokens.iter().filter(|t| t.kind == TokenKind::Dedent).count();
    assert_eq!(indents, 2);
    assert_eq!(dedents, 2);
    assert_eq!(tokens.iter().filter(|t| t.kind == TokenKind::Eof).count(), 1);
    assert_eq!(tokens.last().unwrap().kind, TokenKind::Eof);
}

#[test]
fn mismatched_branches_are_reported_either_way_round() {
    let a = typecheck("def f (c : Bool) : Nat := if c then 1 else \"a\"");
    let b = typecheck("def f (c : Bool) : Nat := if c then \"a\" else 1");
    assert!(a.is_err());
    assert!(b.is_err());
}

#[test]
fn a_type_is_compatible_with_itself() {
    assert!(typecheck("def f (c : Bool) (s : String) : String := if c then s else s").is_ok());
}

#[test]
fn pascal_case_leaves_no_underscore() {
    for s in ["a_b_c", "_x_", "snake_case_name", "already"] {
        assert!(!to_pascal_case(s).contains('_'), "{}", s);
    }
}

#[test]
fn resolution_errors_come_before_type_errors() {
    match compile("def f : Nat := \"a\"\ndef g : Nat := missing\n") {
        Err(CompilerError::Multiple(errs)) => {
            assert_eq!(errs.len(), 1);
            assert!(matches!(&errs[0], CompilerError::ResolveError { .. }));
        },
        other => panic!("unexpected {:?}", other),
    }
}

#[test]
fn parse_errors_stop_before_resolution() {
    match compile("def f : Nat := missing\ndef := 1\n") {
        Err(CompilerError::Multiple(errs)) => {
            assert!(errs.iter().all(|e| matches!(e, CompilerError::ParseError { .. })));
        },
        other => panic!("unexpected {:?}", other),
    }
}

#[test]
fn subtraction_applies_to_the_whole_left_side() {
    let out = compile("#eval 2 * 3 - 1\n").unwrap();
    assert!(out.contains("(2 * 3).saturating_sub(1)"), "{}", out);
    let out = compile("def f (x : Nat) (y : Nat) (z : Nat) : Nat := x + y - z\n").unwrap();
    assert!(out.contains("(x + y).saturating_sub(z)"), "{}", out);
    let out = compile("def g (x : Nat) : Nat := x - 1\n").unwrap();
    assert!(out.contains("x.saturating_sub(1)") && !out.contains("(x).saturating_sub"), "{}", out);
    let out = compile("def h (x : Nat) : Nat := (x + 1) - 1\n").unwrap();
    assert!(out.contains("(x + 1).saturating_sub(1)"), "{}", out);
}

#[test]
fn snake_case_then_pascal_case_capitalizes() {
    assert_eq!(to_pascal_case(&to_snake_case("circleArea")), "CircleArea");
    assert_eq!(to_pascal_case(&to_snake_case("HTTPServer")), "HTTPServer");
    assert_eq!(to_pascal_case(&to_snake_case("x")), "X");
}

#[test]
fn without_an_entry_point_nothing_is_eliminated() {
    let out = compile("def a : Nat := 1\ndef b : Nat := 2\n").unwrap();
    let ia = out.find("fn a()").unwrap();
    let ib = out.find("fn b()").unwrap();
    assert!(ia < ib);
    assert!(!out.contains("fn main"));
}
