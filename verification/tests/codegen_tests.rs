use lustc::ast::Type;
use lustc::codegen::{to_pascal_case, to_snake_case, CodeGen};
use lustc::lexer::Lexer;
use lustc::parser::Parser;

fn compile(src: &str) -> String {
    let mut lexer = Lexer::new(src);
    let tokens = lexer.tokenize().unwrap();
    let mut parser = Parser::new(tokens);
    let decls = parser.parse_program().unwrap();
    let mut codegen = CodeGen::new();
    codegen.generate(&decls).unwrap()
}

#[test]
fn test_simple_function() {
    let result = compile("def add (x : Nat) (y : Nat) : Nat := x + y");
    assert!(result.contains("fn add(x: u64, y: u64) -> u64"));
}

#[test]
fn test_eval_generates_main() {
    let result = compile("#eval 1 + 2");
    assert!(result.contains("fn main()"));
    assert!(result.contains("println!"));
}

#[test]
fn codegen_test_inductive_type() {
    let result = compile("inductive Color where\n  | red\n  | green\n  | blue");
    assert!(result.contains("enum Color"));
    assert!(result.contains("Red"));
    assert!(result.contains("Green"));
    assert!(result.contains("Blue"));
    assert!(result.contains("#[derive(Debug, Clone, PartialEq)]"));
}

#[test]
fn test_pascal_case() {
    assert_eq!(to_pascal_case("red"), "Red");
    assert_eq!(to_pascal_case("light_blue"), "LightBlue");
    assert_eq!(to_pascal_case("hello"), "Hello");
}

#[test]
fn test_nat_subtraction_saturating() {
    let result = compile("def pred (n : Nat) : Nat := n - 1");
    assert!(result.contains("saturating_sub"));
}

#[test]
fn test_io_println() {
    let result = compile("def main : IO Unit := do\n  IO.println \"Hello!\"");
    assert!(result.contains("fn main()"));
    assert!(result.contains("println!"));
    assert!(result.contains("Hello!"));
}

#[test]
fn test_type_conversion() {
    let cg = CodeGen::new();
    assert_eq!(cg.type_to_rust(&Type::Named("Nat".to_string())), "u64");
    assert_eq!(cg.type_to_rust(&Type::Named("Int".to_string())), "i64");
    assert_eq!(cg.type_to_rust(&Type::Named("Bool".to_string())), "bool");
    assert_eq!(cg.type_to_rust(&Type::Named("String".to_string())), "String");
    assert_eq!(cg.type_to_rust(&Type::Unit), "()");
}

#[test]
fn test_struct_generation() {
    let result = compile("structure Point where\n  x : Nat\n  y : Nat");
    assert!(result.contains("struct Point"));
    assert!(result.contains("x: u64"));
    assert!(result.contains("y: u64"));
    assert!(result.contains("#[derive(Debug, Clone, PartialEq)]"));
}

#[test]
fn test_tuple_type_conversion() {
    let cg = CodeGen::new();
    let tuple_type = Type::Tuple(vec![Type::Named("Nat".to_string()), Type::Named("Bool".to_string())]);
    assert_eq!(cg.type_to_rust(&tuple_type), "(u64, bool)");
}

#[test]
fn test_list_type_conversion() {
    let cg = CodeGen::new();
    let list_type = Type::App(
        Box::new(Type::Named("List".to_string())),
        Box::new(Type::Named("Nat".to_string())),
    );
    assert_eq!(cg.type_to_rust(&list_type), "Vec<u64>");
}

#[test]
fn test_option_type_conversion() {
    let cg = CodeGen::new();
    let opt_type = Type::App(
        Box::new(Type::Named("Option".to_string())),
        Box::new(Type::Named("Nat".to_string())),
    );
    assert_eq!(cg.type_to_rust(&opt_type), "Option<u64>");
}

#[test]
fn test_string_interpolation_codegen() {
    let result = compile(
        r#"def main : IO Unit := do
  let name := "world"
  IO.println s!"Hello, {name}!""#,
    );
    assert!(result.contains("format!("));
    assert!(result.contains("Hello, {}!"));
}

#[test]
fn test_snake_case() {
    assert_eq!(to_snake_case("circleArea"), "circle_area");
    assert_eq!(to_snake_case("colorName"), "color_name");
    assert_eq!(to_snake_case("factorial"), "factorial");
    assert_eq!(to_snake_case("main"), "main");
    assert_eq!(to_snake_case("x"), "x");
    assert_eq!(to_snake_case("showOpt"), "show_opt");
}

#[test]
fn test_snake_case_in_output() {
    let result = compile("def circleArea (r : Nat) : Nat := r * r * 3");
    assert!(result.contains("fn circle_area(r: u64) -> u64"));
}

#[test]
fn codegen_test_dead_code_elimination() {
    let result = compile(
        "def unused (x : Nat) : Nat := x + 1\ndef helper (x : Nat) : Nat := x * 2\ndef main : IO Unit := do\n  IO.println (toString (helper 5))",
    );
    assert!(!result.contains("fn unused"));
    assert!(result.contains("helper"));
}
