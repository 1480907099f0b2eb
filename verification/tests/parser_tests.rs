use lustc::ast::{Decl, Expr, StringInterpPart, Type};
use lustc::error::CompilerError;
use lustc::lexer::Lexer;
use lustc::parser::Parser;

fn parse(src: &str) -> Vec<Decl> {
    let mut lexer = Lexer::new(src);
    let tokens = lexer.tokenize().unwrap();
    let mut parser = Parser::new(tokens);
    parser.parse_program().unwrap()
}

#[test]
fn parser_test_simple_def() {
    let decls = parse("def x : Nat := 42");
    assert_eq!(decls.len(), 1);
    match &decls[0] {
        Decl::FunDef { name, body, .. } => {
            assert_eq!(name, "x");
            assert!(matches!(body, Expr::IntLit(42)));
        }
        _ => panic!("expected FunDef"),
    }
}

#[test]
fn test_def_with_params() {
    let decls = parse("def add (x : Nat) (y : Nat) : Nat := x + y");
    assert_eq!(decls.len(), 1);
    match &decls[0] {
        Decl::FunDef { name, params, .. } => {
            assert_eq!(name, "add");
            assert_eq!(params.len(), 2);
        }
        _ => panic!("expected FunDef"),
    }
}

#[test]
fn parser_test_eval() {
    let decls = parse("#eval 1 + 2 * 3");
    assert_eq!(decls.len(), 1);
    assert!(matches!(&decls[0], Decl::Eval(_)));
}

#[test]
fn test_if_expr() {
    let decls = parse("def f (x : Nat) : Nat := if x == 0 then 1 else x");
    match &decls[0] {
        Decl::FunDef { body, .. } => {
            assert!(matches!(body, Expr::If { .. }));
        }
        _ => panic!("expected FunDef"),
    }
}

#[test]
fn test_inductive() {
    let decls = parse("inductive Color where\n  | red\n  | green\n  | blue");
    match &decls[0] {
        Decl::InductiveDef { name, constructors, .. } => {
            assert_eq!(name, "Color");
            assert_eq!(constructors.len(), 3);
            assert_eq!(constructors[0].name, "red");
        }
        _ => panic!("expected InductiveDef"),
    }
}

#[test]
fn test_function_application() {
    let decls = parse("#eval add 1 2");
    match &decls[0] {
        Decl::Eval(expr) => match expr {
            Expr::FunApp { .. } => {}
            _ => panic!("expected FunApp, got {:?}", expr),
        },
        _ => panic!("expected Eval"),
    }
}

#[test]
fn parser_test_string_literal() {
    let decls = parse(r#"#eval "hello""#);
    match &decls[0] {
        Decl::Eval(Expr::StringLit(s)) => assert_eq!(s, "hello"),
        _ => panic!("expected string literal"),
    }
}

#[test]
fn test_qualified_name() {
    let decls = parse(r#"#eval IO.println "hi""#);
    match &decls[0] {
        Decl::Eval(Expr::FunApp { func, .. }) => match func.as_ref() {
            Expr::Var(name, _) => assert_eq!(name, "IO.println"),
            _ => panic!("expected qualified var"),
        },
        _ => panic!("expected Eval with FunApp"),
    }
}

#[test]
fn test_multiple_parse_errors() {
    let src = "def := 42\ndef := 99";
    let mut lexer = Lexer::new(src);
    let tokens = lexer.tokenize().unwrap();
    let mut parser = Parser::new(tokens);
    let result = parser.parse_program();
    match result {
        Err(CompilerError::Multiple(errors)) => {
            assert_eq!(errors.len(), 2, "expected 2 errors, got {}", errors.len());
        }
        Err(e) => panic!("expected Multiple, got {:?}", e),
        Ok(_) => panic!("expected error"),
    }
}

#[test]
fn test_structure() {
    let decls = parse("structure Point where\n  x : Nat\n  y : Nat");
    match &decls[0] {
        Decl::StructDef { name, fields } => {
            assert_eq!(name, "Point");
            assert_eq!(fields.len(), 2);
            assert_eq!(fields[0].0, "x");
            assert_eq!(fields[1].0, "y");
        }
        _ => panic!("expected StructDef"),
    }
}

#[test]
fn test_tuple_expr() {
    let decls = parse("#eval (1, 2)");
    match &decls[0] {
        Decl::Eval(Expr::Tuple(elems)) => {
            assert_eq!(elems.len(), 2);
        }
        other => panic!("expected tuple, got {:?}", other),
    }
}

#[test]
fn parser_test_tuple_type() {
    let decls = parse("def fst (p : Nat × Nat) : Nat := p");
    match &decls[0] {
        Decl::FunDef { params, .. } => {
            assert!(matches!(&params[0].1, Type::Tuple(ts) if ts.len() == 2));
        }
        _ => panic!("expected FunDef"),
    }
}

#[test]
fn parser_test_string_interpolation() {
    let decls = parse(r#"#eval s!"hello {x}""#);
    match &decls[0] {
        Decl::Eval(Expr::StringInterpolation(parts)) => {
            assert_eq!(parts.len(), 2);
            assert!(matches!(&parts[0], StringInterpPart::Literal(s) if s == "hello "));
            assert!(matches!(&parts[1], StringInterpPart::Expr(_)));
        }
        other => panic!("expected StringInterpolation, got {:?}", other),
    }
}

#[test]
fn parser_test_where_clause() {
    let decls = parse("def f (r : Nat) : Nat :=\n  pi * r * r\n  where pi := 3");
    match &decls[0] {
        Decl::FunDef { body, .. } => {
            assert!(matches!(body, Expr::Let { .. }));
        }
        _ => panic!("expected FunDef with let from where"),
    }
}

#[test]
fn test_constructor_with_type_app() {
    let decls = parse("inductive MyList where\n  | nil\n  | cons : Nat → MyList → MyList");
    match &decls[0] {
        Decl::InductiveDef { constructors, .. } => {
            assert_eq!(constructors[1].name, "cons");
            assert_eq!(constructors[1].fields.len(), 2);
        }
        _ => panic!("expected InductiveDef"),
    }
}
