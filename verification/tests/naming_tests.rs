use lustc::ast::{ModulePath, Type};
use lustc::codegen::{to_pascal_case, to_snake_case, CodeGen};

#[test]
fn snake_case_edge_cases() {
    assert_eq!(to_snake_case(""), "");
    assert_eq!(to_snake_case("Point"), "point");
    assert_eq!(to_snake_case("HTTPServer"), "h_t_t_p_server");
    assert_eq!(to_snake_case("already_snake"), "already_snake");
    assert_eq!(to_snake_case("x1Y2"), "x1_y2");
}

#[test]
fn snake_case_is_idempotent() {
    for s in ["circleArea", "showOpt", "HTTPServer", "main", "a_b"] {
        let once = to_snake_case(s);
        assert_eq!(to_snake_case(&once), once);
        assert!(!once.chars().any(|c| c.is_ascii_uppercase()));
    }
}

#[test]
fn pascal_case_edge_cases() {
    assert_eq!(to_pascal_case(""), "");
    assert_eq!(to_pascal_case("_leading"), "Leading");
    assert_eq!(to_pascal_case("a__b"), "AB");
    assert_eq!(to_pascal_case("trailing_"), "Trailing");
    assert_eq!(to_pascal_case("Red"), "Red");
    for s in ["light_blue", "a__b", "_x_"] {
        assert!(!to_pascal_case(s).contains('_'));
    }
}

#[test]
fn rust_types_of_compound_types() {
    let cg = CodeGen::new();
    let arrow = Type::Arrow(Box::new(Type::Named("Nat".to_string())), Box::new(Type::Named("Bool".to_string())));
    assert_eq!(cg.type_to_rust(&arrow), "fn(u64) -> bool");
    let io = Type::App(Box::new(Type::Named("IO".to_string())), Box::new(Type::Unit));
    assert_eq!(cg.type_to_rust(&io), "()");
    let other = Type::App(Box::new(Type::Named("Nat".to_string())), Box::new(Type::Named("Bool".to_string())));
    assert_eq!(cg.type_to_rust(&other), "u64");
    let named = Type::Named("Point".to_string());
    assert_eq!(cg.type_to_rust(&named), "Point");
    assert_eq!(cg.type_to_rust(&Type::Tuple(vec![])), "()");
}

#[test]
fn module_path_to_file_path() {
    let p = ModulePath { segments: vec!["Utils".to_string(), "Math".to_string()] };
    assert_eq!(p.to_file_path(), "Utils/Math.lean");
    let single = ModulePath { segments: vec!["Helpers".to_string()] };
    assert_eq!(single.to_file_path(), "Helpers.lean");
}
