use lustc::error::{CompilerError, Diagnostic, SourceMap, Span};
use lustc::typechecker::Ty;

fn span(line: usize, column: usize, end_column: usize) -> Span {
    Span { line, column, end_column }
}

#[test]
fn display_of_each_error_variant() {
    let lex = CompilerError::LexError { msg: "unterminated string".to_string(), span: span(2, 7, 8) };
    assert_eq!(lex.to_display_string(), "Lex error at 2:7: unterminated string");
    let parse = CompilerError::ParseError { msg: "expected `:=`".to_string(), span: span(1, 5, 6) };
    assert_eq!(parse.to_display_string(), "Parse error at 1:5: expected `:=`");
    let resolve = CompilerError::ResolveError { msg: "undefined variable `y`".to_string(), span: span(1, 26, 27) };
    assert_eq!(resolve.to_display_string(), "Resolve error at 1:26: undefined variable `y`");
    let ty = CompilerError::TypeError { msg: "type mismatch".to_string(), span: span(0, 0, 0) };
    assert_eq!(ty.to_display_string(), "Type error at 0:0: type mismatch");
    let cg = CompilerError::CodeGenError { msg: "unsupported".to_string() };
    assert_eq!(cg.to_display_string(), "Code generation error: unsupported");
    let module = CompilerError::ModuleError { msg: "circular import detected: A".to_string() };
    assert_eq!(module.to_display_string(), "Module error: circular import detected: A");
    let io = CompilerError::IoError("No such file or directory (os error 2)".to_string());
    assert_eq!(io.to_display_string(), "IO error: No such file or directory (os error 2)");
    let many = CompilerError::Multiple(vec![lex, module]);
    assert_eq!(
        many.to_display_string(),
        "Lex error at 2:7: unterminated string\nModule error: circular import detected: A"
    );
}

#[test]
fn diagnostic_renders_location_line_and_carets() {
    let sm = SourceMap::new("def f (x : Nat) : Nat := y + 1\n");
    let err = CompilerError::ResolveError { msg: "undefined variable `y`".to_string(), span: span(1, 26, 27) };
    let diag = Diagnostic::new(&err, &sm, "test.lean");
    assert!(diag.can_render());
    assert_eq!(
        diag.render(),
        "error: undefined variable `y`\n  --> test.lean:1:26\n   |\n  1 | def f (x : Nat) : Nat := y + 1\n   |                          ^ undefined variable `y`\n"
    );
}

#[test]
fn diagnostic_of_type_error_without_location() {
    let sm = SourceMap::new("def f (x : Nat) : String := x + 1\n");
    let err = CompilerError::TypeError {
        msg: "type mismatch: expected `String`, found `Nat`".to_string(),
        span: span(0, 0, 0),
    };
    let diag = Diagnostic::new(&err, &sm, "t.lean");
    assert_eq!(
        diag.render(),
        "type error: type mismatch: expected `String`, found `Nat`\n  --> t.lean:0:0\n   |\n"
    );
}

#[test]
fn diagnostic_of_several_errors_separated_by_blank_line() {
    let sm = SourceMap::new("x\n");
    let err = CompilerError::Multiple(vec![
        CompilerError::ModuleError { msg: "a".to_string() },
        CompilerError::CodeGenError { msg: "b".to_string() },
        CompilerError::IoError("c".to_string()),
    ]);
    let diag = Diagnostic::new(&err, &sm, "f.lean");
    assert_eq!(diag.render(), "module error: a\n\nerror: b\n\nerror: c\n");
}

#[test]
fn diagnostic_with_zero_column_cannot_render() {
    let sm = SourceMap::new("abc\n");
    let err = CompilerError::LexError { msg: "m".to_string(), span: span(1, 0, 0) };
    assert!(!Diagnostic::new(&err, &sm, "f.lean").can_render());
}

#[test]
fn source_map_strips_carriage_returns() {
    let sm = SourceMap::new("one\r\ntwo\r\n");
    assert_eq!(sm.line_text(1), Some("one"));
    assert_eq!(sm.line_text(2), Some("two"));
    assert_eq!(sm.line_text(3), None);
}

#[test]
fn ty_display_forms() {
    let t = Ty::Arrow(
        Box::new(Ty::Nat),
        Box::new(Ty::Tuple(vec![Ty::Bool, Ty::List(Box::new(Ty::String)), Ty::Option(Box::new(Ty::Int))])),
    );
    assert_eq!(t.to_display_string(), "Nat → (Bool, List String, Option Int)");
    assert_eq!(Ty::Named("Point".to_string()).to_display_string(), "Point");
    assert_eq!(Ty::Unknown.to_display_string(), "?");
    assert_eq!(Ty::Unit.to_display_string(), "Unit");
}
