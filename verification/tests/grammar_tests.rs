use lustc::ast::{BinOp, Decl, Expr, Type};
use lustc::error::CompilerError;
use lustc::lexer::Lexer;
use lustc::loader::parse_source;
use lustc::token::TokenKind;

fn parse_errors(src: &str) -> Vec<(String, usize, usize)> {
    match parse_source(src) {
        Err(CompilerError::Multiple(errs)) => errs
            .into_iter()
            .map(|e| match e {
                CompilerError::ParseError { msg, span } => (msg, span.line, span.column),
                other => panic!("not a parse error: {:?}", other),
            })
            .collect(),
        other => panic!("expected parse errors, got {:?}", other),
    }
}

#[test]
fn where_bindings_wrap_the_body_first_outermost() {
    let decls = parse_source("def f : Nat := a + b\n  where\n    a := 1\n    b := 2\n").unwrap();
    match &decls[0] {
        Decl::FunDef { body, .. } => match body {
            Expr::Let { name, value, body, ty } => {
                assert_eq!(name, "a");
                assert!(ty.is_none());
                assert!(matches!(**value, Expr::IntLit(1)));
                match &**body {
                    Expr::Let { name, value, body, .. } => {
                        assert_eq!(name, "b");
                        assert!(matches!(**value, Expr::IntLit(2)));
                        assert!(matches!(**body, Expr::BinOp { op: BinOp::Add, .. }));
                    },
                    other => panic!("unexpected {:?}", other),
                }
            },
            other => panic!("unexpected {:?}", other),
        },
        other => panic!("unexpected {:?}", other),
    }
}

#[test]
fn constructor_fields_leave_out_the_type_built() {
    let decls = parse_source("inductive L where\n  | nil : L\n  | cons : Nat → L → L\n").unwrap();
    match &decls[0] {
        Decl::InductiveDef { constructors, .. } => {
            assert_eq!(constructors[0].fields.len(), 0);
            assert_eq!(constructors[1].fields.len(), 2);
            assert!(matches!(&constructors[1].fields[0], Type::Named(n) if n == "Nat"));
            assert!(matches!(&constructors[1].fields[1], Type::Named(n) if n == "L"));
        },
        other => panic!("unexpected {:?}", other),
    }
}

#[test]
fn unit_names_the_unit_type() {
    let decls = parse_source("def u (x : Unit) : Unit := x\n").unwrap();
    match &decls[0] {
        Decl::FunDef { params, return_type, .. } => {
            assert!(matches!(params[0].1, Type::Unit));
            assert!(matches!(return_type, Some(Type::Unit)));
        },
        other => panic!("unexpected {:?}", other),
    }
}

#[test]
fn errors_are_reported_with_recovery_at_the_next_declaration() {
    let errs = parse_errors("42\ndef x : Nat := 1\n)\n");
    assert_eq!(errs.len(), 2);
    assert_eq!(errs[0], ("expected declaration, found IntLit(42)".to_string(), 1, 1));
    assert_eq!(errs[1], ("expected declaration, found RParen".to_string(), 3, 1));
}

#[test]
fn namespace_closed_by_another_name() {
    let errs = parse_errors("namespace A\ndef x : Nat := 1\nend B\n");
    assert_eq!(errs.len(), 1);
    assert_eq!(errs[0], ("expected `end A`, found `end B`".to_string(), 3, 5));
}

#[test]
fn namespace_left_open() {
    let errs = parse_errors("namespace A\ndef x : Nat := 1\n");
    assert_eq!(errs.len(), 1);
    assert_eq!(errs[0].0, "expected `end A`, found end of input");
}

#[test]
fn lexing_error_inside_an_interpolation_hole() {
    let errs = parse_errors("#eval s!\"{\\\"abc}\"");
    assert_eq!(errs.len(), 1);
    assert_eq!(
        errs[0],
        (
            "error in interpolated expression: Lex error at 1:1: unterminated string".to_string(),
            1,
            18,
        )
    );
}

#[test]
fn unicode_and_ascii_arrows_read_alike() {
    let a = Lexer::new("→ ->").tokenize().unwrap();
    assert_eq!(a[0].kind, TokenKind::Arrow);
    assert_eq!(a[1].kind, TokenKind::Arrow);
    let b = Lexer::new("← <-").tokenize().unwrap();
    assert_eq!(b[0].kind, TokenKind::LeftArrow);
    assert_eq!(b[1].kind, TokenKind::LeftArrow);
}

#[test]
fn lexing_error_is_returned_as_it_comes() {
    match parse_source("def x : Nat := 1 & 2\n") {
        Err(CompilerError::LexError { msg, span }) => {
            assert_eq!(msg, "unexpected character: &");
            assert_eq!((span.line, span.column, span.end_column), (1, 18, 19));
        },
        other => panic!("unexpected {:?}", other),
    }
}
