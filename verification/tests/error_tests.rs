use lustc::error::{CompilerError, Diagnostic, SourceMap, Span};

#[test]
fn test_source_map_line_text() {
    let source = "line one\nline two\nline three";
    let sm = SourceMap::new(source);
    assert_eq!(sm.line_text(1), Some("line one"));
    assert_eq!(sm.line_text(2), Some("line two"));
    assert_eq!(sm.line_text(3), Some("line three"));
    assert_eq!(sm.line_text(0), None);
    assert_eq!(sm.line_text(4), None);
}

#[test]
fn test_source_map_empty_lines() {
    let source = "first\n\nthird";
    let sm = SourceMap::new(source);
    assert_eq!(sm.line_text(1), Some("first"));
    assert_eq!(sm.line_text(2), Some(""));
    assert_eq!(sm.line_text(3), Some("third"));
}

#[test]
fn test_diagnostic_display() {
    let source = "def foo := + 42";
    let sm = SourceMap::new(source);
    let err = CompilerError::ParseError {
        msg: "expected identifier".to_string(),
        span: Span { line: 1, column: 12, end_column: 13 },
    };
    let diag = Diagnostic::new(&err, &sm, "input.lean");
    let output = diag.render();
    assert!(output.contains("error: expected identifier"));
    assert!(output.contains("--> input.lean:1:12"));
    assert!(output.contains("def foo := + 42"));
    assert!(output.contains("^"));
}
