use lustc::ast::Decl;
use lustc::error::CompilerError;
use lustc::lexer::Lexer;
use lustc::parser::Parser;
use lustc::typechecker::TypeChecker;

fn parse(src: &str) -> Vec<Decl> {
    let mut lexer = Lexer::new(src);
    let tokens = lexer.tokenize().unwrap();
    let mut parser = Parser::new(tokens);
    parser.parse_program().unwrap()
}

fn typecheck(src: &str) -> Result<(), Vec<CompilerError>> {
    let decls = parse(src);
    let checker = TypeChecker::new();
    checker.check(&decls)
}

#[test]
fn test_well_typed_arithmetic() {
    assert!(typecheck("def add (x : Nat) (y : Nat) : Nat := x + y").is_ok());
}

#[test]
fn test_bool_condition() {
    assert!(typecheck("def f (x : Nat) : Nat := if x == 0 then 1 else x").is_ok());
}

#[test]
fn test_type_mismatch_if_branches() {
    let result = typecheck("def f (x : Nat) : Nat := if x == 0 then 1 else true");
    assert!(result.is_err());
    let errors = result.unwrap_err();
    assert!(errors
        .iter()
        .any(|e| matches!(e, CompilerError::TypeError { msg, .. } if msg.contains("type mismatch"))));
}

#[test]
fn test_arithmetic_on_bool() {
    let result = typecheck("def f (x : Bool) : Nat := x + 1");
    assert!(result.is_err());
    let errors = result.unwrap_err();
    assert!(errors
        .iter()
        .any(|e| matches!(e, CompilerError::TypeError { msg, .. } if msg.contains("numeric"))));
}

#[test]
fn test_and_on_non_bool() {
    let result = typecheck("def f (x : Nat) (y : Nat) : Bool := x && y");
    assert!(result.is_err());
}

#[test]
fn test_let_binding_type() {
    assert!(typecheck("#eval let x := 10 in x + 1").is_ok());
}

#[test]
fn test_lambda_infer() {
    assert!(typecheck("#eval (fun n => n + 1) 5").is_ok());
}

#[test]
fn test_string_interpolation_returns_string() {
    assert!(typecheck(
        r#"def main : IO Unit := do
  let name := "world"
  IO.println s!"Hello, {name}!""#
    )
    .is_ok());
}

#[test]
fn typechecker_test_tuple_type() {
    assert!(typecheck("def fst (p : Nat × Nat) : Nat := p.1").is_ok());
}

#[test]
fn test_match_arms_type_consistency() {
    let result = typecheck(
        r#"inductive Color where
  | red
  | green
  | blue

def f (c : Color) : Nat :=
  match c with
  | Color.red => 1
  | Color.green => "hello"
  | Color.blue => 3"#,
    );
    assert!(result.is_err());
}

#[test]
fn test_return_type_mismatch() {
    let result = typecheck("def f (x : Nat) : String := x + 1");
    assert!(result.is_err());
    let errors = result.unwrap_err();
    assert!(errors
        .iter()
        .any(|e| matches!(e, CompilerError::TypeError { msg, .. } if msg.contains("type mismatch"))));
}

#[test]
fn typechecker_test_recursive_function() {
    assert!(typecheck("def factorial (n : Nat) : Nat := if n == 0 then 1 else n * factorial (n - 1)").is_ok());
}

#[test]
fn test_struct_type_check() {
    assert!(typecheck(
        r#"structure Point where
  x : Nat
  y : Nat

def origin : Point := Point.mk 0 0"#
    )
    .is_ok());
}

#[test]
fn test_option_type_check() {
    assert!(typecheck(
        r#"def showOpt (o : Option Nat) : String :=
  match o with
  | Option.none => "nothing"
  | Option.some x => s!"got {x}""#
    )
    .is_ok());
}
