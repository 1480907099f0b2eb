use lustc::lexer::Lexer;
use lustc::token::TokenKind;

fn token_kinds(src: &str) -> Vec<TokenKind> {
    let mut lexer = Lexer::new(src);
    let tokens = lexer.tokenize().unwrap();
    tokens.into_iter().map(|t| t.kind).collect()
}

fn filter_significant(kinds: Vec<TokenKind>) -> Vec<TokenKind> {
    kinds
        .into_iter()
        .filter(|k| !matches!(k, TokenKind::Newline | TokenKind::Indent | TokenKind::Dedent))
        .collect()
}

#[test]
fn lexer_test_simple_def() {
    let kinds = filter_significant(token_kinds("def foo := 42"));
    assert_eq!(
        kinds,
        vec![
            TokenKind::Def,
            TokenKind::Ident("foo".to_string()),
            TokenKind::ColonEq,
            TokenKind::IntLit(42),
            TokenKind::Eof,
        ]
    );
}

#[test]
fn test_operators() {
    let kinds = filter_significant(token_kinds("x + y * z - 1"));
    assert_eq!(
        kinds,
        vec![
            TokenKind::Ident("x".to_string()),
            TokenKind::Plus,
            TokenKind::Ident("y".to_string()),
            TokenKind::Star,
            TokenKind::Ident("z".to_string()),
            TokenKind::Minus,
            TokenKind::IntLit(1),
            TokenKind::Eof,
        ]
    );
}

#[test]
fn test_arrows() {
    let kinds = filter_significant(token_kinds("Nat → Nat"));
    assert_eq!(
        kinds,
        vec![
            TokenKind::Ident("Nat".to_string()),
            TokenKind::Arrow,
            TokenKind::Ident("Nat".to_string()),
            TokenKind::Eof,
        ]
    );

    let kinds2 = filter_significant(token_kinds("Nat -> Nat"));
    assert_eq!(
        kinds2,
        vec![
            TokenKind::Ident("Nat".to_string()),
            TokenKind::Arrow,
            TokenKind::Ident("Nat".to_string()),
            TokenKind::Eof,
        ]
    );
}

#[test]
fn lexer_test_string_literal() {
    let kinds = filter_significant(token_kinds(r#""hello world""#));
    assert_eq!(
        kinds,
        vec![TokenKind::StringLit("hello world".to_string()), TokenKind::Eof]
    );
}

#[test]
fn test_hash_eval() {
    let kinds = filter_significant(token_kinds("#eval 1 + 2"));
    assert_eq!(
        kinds,
        vec![
            TokenKind::HashEval,
            TokenKind::IntLit(1),
            TokenKind::Plus,
            TokenKind::IntLit(2),
            TokenKind::Eof,
        ]
    );
}

#[test]
fn test_line_comment() {
    let kinds = filter_significant(token_kinds("x -- comment\ny"));
    assert_eq!(
        kinds,
        vec![
            TokenKind::Ident("x".to_string()),
            TokenKind::Ident("y".to_string()),
            TokenKind::Eof,
        ]
    );
}

#[test]
fn test_block_comment() {
    let kinds = filter_significant(token_kinds("x /- comment -/ y"));
    assert_eq!(
        kinds,
        vec![
            TokenKind::Ident("x".to_string()),
            TokenKind::Ident("y".to_string()),
            TokenKind::Eof,
        ]
    );
}

#[test]
fn test_comparison_operators() {
    let kinds = filter_significant(token_kinds("a == b != c <= d >= e"));
    assert_eq!(
        kinds,
        vec![
            TokenKind::Ident("a".to_string()),
            TokenKind::EqEq,
            TokenKind::Ident("b".to_string()),
            TokenKind::Ne,
            TokenKind::Ident("c".to_string()),
            TokenKind::Le,
            TokenKind::Ident("d".to_string()),
            TokenKind::Ge,
            TokenKind::Ident("e".to_string()),
            TokenKind::Eof,
        ]
    );
}

#[test]
fn test_indentation() {
    let kinds = token_kinds("do\n  x\n  y\nz");
    assert!(kinds.contains(&TokenKind::Indent));
    assert!(kinds.contains(&TokenKind::Dedent));
}

#[test]
fn test_keywords() {
    let kinds = filter_significant(token_kinds(
        "def let in if then else match with do where inductive fun true false import open namespace end",
    ));
    assert_eq!(
        kinds,
        vec![
            TokenKind::Def,
            TokenKind::Let,
            TokenKind::In,
            TokenKind::If,
            TokenKind::Then,
            TokenKind::Else,
            TokenKind::Match,
            TokenKind::With,
            TokenKind::Do,
            TokenKind::Where,
            TokenKind::Inductive,
            TokenKind::Fun,
            TokenKind::True,
            TokenKind::False,
            TokenKind::Import,
            TokenKind::Open,
            TokenKind::Namespace,
            TokenKind::End,
            TokenKind::Eof,
        ]
    );
}
