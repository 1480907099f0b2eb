use lustc::ast::Decl;
use lustc::error::CompilerError;
use lustc::lexer::Lexer;
use lustc::parser::Parser;
use lustc::resolver::Resolver;

fn parse(src: &str) -> Vec<Decl> {
    let mut lexer = Lexer::new(src);
    let tokens = lexer.tokenize().unwrap();
    let mut parser = Parser::new(tokens);
    parser.parse_program().unwrap()
}

fn resolve(src: &str) -> Result<(), Vec<CompilerError>> {
    let decls = parse(src);
    let resolver = Resolver::new();
    resolver.resolve(&decls)
}

#[test]
fn test_defined_variable_ok() {
    assert!(resolve("def f (x : Nat) : Nat := x + 1").is_ok());
}

#[test]
fn test_undefined_variable_error() {
    let result = resolve("def f (x : Nat) : Nat := y + 1");
    match result {
        Err(errors) => {
            assert_eq!(errors.len(), 1);
            match &errors[0] {
                CompilerError::ResolveError { msg, .. } => {
                    assert!(msg.contains("undefined variable `y`"));
                }
                other => panic!("expected ResolveError, got {:?}", other),
            }
        }
        Ok(_) => panic!("expected error"),
    }
}

#[test]
fn test_let_binding_scope() {
    assert!(resolve("#eval let x := 10 in x + 1").is_ok());
}

#[test]
fn test_lambda_scope() {
    assert!(resolve("#eval (fun n => n + 1) 5").is_ok());
}

#[test]
fn test_match_pattern_scope() {
    let src = r#"inductive Color where
  | red
  | green
  | blue

def f (c : Color) : Nat :=
  match c with
  | Color.red => 1
  | Color.green => 2
  | Color.blue => 3"#;
    assert!(resolve(src).is_ok());
}

#[test]
fn resolver_test_recursive_function() {
    let src = "def factorial (n : Nat) : Nat := if n == 0 then 1 else n * factorial (n - 1)";
    assert!(resolve(src).is_ok());
}

#[test]
fn test_builtins() {
    assert!(resolve(
        r#"def main : IO Unit := do
  IO.println (toString 42)"#
    )
    .is_ok());
}

#[test]
fn test_do_let_scope() {
    assert!(resolve(
        r#"def main : IO Unit := do
  let x := 10
  IO.println (toString x)"#
    )
    .is_ok());
}

#[test]
fn resolver_test_pattern_match_function_def() {
    let src = "def factorial : Nat → Nat\n  | 0 => 1\n  | n + 1 => (n + 1) * factorial n";
    assert!(resolve(src).is_ok());
}

#[test]
fn test_struct_names_resolved() {
    let src = r#"structure Point where
  x : Nat
  y : Nat

def origin : Point := Point.mk 0 0"#;
    assert!(resolve(src).is_ok());
}

#[test]
fn test_list_option_builtins() {
    assert!(resolve("#eval List.nil").is_ok());
    assert!(resolve("#eval List.cons 1 List.nil").is_ok());
    assert!(resolve("#eval Option.none").is_ok());
    assert!(resolve("#eval Option.some 42").is_ok());
}
