//! Tokens produced by the lexer.

use vstd::prelude::*;

use crate::error::Span;
use crate::text::push_char;

verus! {

#[derive(Debug, Clone, PartialEq)]
pub enum TokenKind {
    // Keywords
    Def,
    Let,
    In,
    If,
    Then,
    Else,
    Match,
    With,
    Do,
    Where,
    Inductive,
    Fun,
    Structure,
    Import,
    Open,
    Namespace,
    End,

    // Literals
    IntLit(u64),
    StringLit(String),
    InterpolatedString(String),
    True,
    False,

    // Identifiers
    Ident(String),

    // Operators
    Plus,
    Minus,
    Star,
    Slash,
    Percent,
    Eq, // =
    EqEq, // ==
    Ne, // !=
    Lt, // <
    Le, // <=
    Gt, // >
    Ge, // >=
    And, // &&
    Or, // ||
    Not, // !
    ColonEq, // :=

    // Arrows and products
    Arrow, // → or ->
    LeftArrow, // ← or <-
    FatArrow, // =>
    Times, // ×

    // Delimiters
    LParen,
    RParen,
    LBrace,
    RBrace,
    Colon,
    Comma,
    Dot,
    Pipe, // |
    HashEval, // #eval
    Underscore,

    // Layout
    Newline,
    Indent,
    Dedent,

    // End of input
    Eof,
}

/// A token with the source span it was read from.
#[derive(Debug, Clone)]
pub struct Token {
    pub kind: TokenKind,
    pub span: Span,
}

impl Token {
    pub fn new(kind: TokenKind, line: usize, column: usize, end_column: usize) -> (t: Token)
        ensures
            t.kind == kind,
            t.span == (Span { line, column, end_column }),
    {
        Token { kind, span: Span { line, column, end_column } }
    }
}

/// A number that tells the variants of `TokenKind` apart (payloads ignored).
pub open spec fn kind_tag(k: TokenKind) -> int {
    match k {
        TokenKind::Def => 0,
        TokenKind::Let => 1,
        TokenKind::In => 2,
        TokenKind::If => 3,
        TokenKind::Then => 4,
        TokenKind::Else => 5,
        TokenKind::Match => 6,
        TokenKind::With => 7,
        TokenKind::Do => 8,
        TokenKind::Where => 9,
        TokenKind::Inductive => 10,
        TokenKind::Fun => 11,
        TokenKind::Structure => 12,
        TokenKind::Import => 13,
        TokenKind::Open => 14,
        TokenKind::Namespace => 15,
        TokenKind::End => 16,
        TokenKind::IntLit(_) => 17,
        TokenKind::StringLit(_) => 18,
        TokenKind::InterpolatedString(_) => 19,
        TokenKind::True => 20,
        TokenKind::False => 21,
        TokenKind::Ident(_) => 22,
        TokenKind::Plus => 23,
        TokenKind::Minus => 24,
        TokenKind::Star => 25,
        TokenKind::Slash => 26,
        TokenKind::Percent => 27,
        TokenKind::Eq => 28,
        TokenKind::EqEq => 29,
        TokenKind::Ne => 30,
        TokenKind::Lt => 31,
        TokenKind::Le => 32,
        TokenKind::Gt => 33,
        TokenKind::Ge => 34,
        TokenKind::And => 35,
        TokenKind::Or => 36,
        TokenKind::Not => 37,
        TokenKind::ColonEq => 38,
        TokenKind::Arrow => 39,
        TokenKind::LeftArrow => 40,
        TokenKind::FatArrow => 41,
        TokenKind::Times => 42,
        TokenKind::LParen => 43,
        TokenKind::RParen => 44,
        TokenKind::LBrace => 45,
        TokenKind::RBrace => 46,
        TokenKind::Colon => 47,
        TokenKind::Comma => 48,
        TokenKind::Dot => 49,
        TokenKind::Pipe => 50,
        TokenKind::HashEval => 51,
        TokenKind::Underscore => 52,
        TokenKind::Newline => 53,
        TokenKind::Indent => 54,
        TokenKind::Dedent => 55,
        TokenKind::Eof => 56,
    }
}

/// A kind without a payload: for these, equal tags mean equal kinds.
pub open spec fn is_plain_kind(k: TokenKind) -> bool {
    !(k is IntLit || k is StringLit || k is InterpolatedString || k is Ident)
}

/// Executable form of `kind_tag`.
pub fn tag_of(k: &TokenKind) -> (r: u8)
    ensures
        r == kind_tag(*k),
{
    match k {
        TokenKind::Def => 0,
        TokenKind::Let => 1,
        TokenKind::In => 2,
        TokenKind::If => 3,
        TokenKind::Then => 4,
        TokenKind::Else => 5,
        TokenKind::Match => 6,
        TokenKind::With => 7,
        TokenKind::Do => 8,
        TokenKind::Where => 9,
        TokenKind::Inductive => 10,
        TokenKind::Fun => 11,
        TokenKind::Structure => 12,
        TokenKind::Import => 13,
        TokenKind::Open => 14,
        TokenKind::Namespace => 15,
        TokenKind::End => 16,
        TokenKind::IntLit(_) => 17,
        TokenKind::StringLit(_) => 18,
        TokenKind::InterpolatedString(_) => 19,
        TokenKind::True => 20,
        TokenKind::False => 21,
        TokenKind::Ident(_) => 22,
        TokenKind::Plus => 23,
        TokenKind::Minus => 24,
        TokenKind::Star => 25,
        TokenKind::Slash => 26,
        TokenKind::Percent => 27,
        TokenKind::Eq => 28,
        TokenKind::EqEq => 29,
        TokenKind::Ne => 30,
        TokenKind::Lt => 31,
        TokenKind::Le => 32,
        TokenKind::Gt => 33,
        TokenKind::Ge => 34,
        TokenKind::And => 35,
        TokenKind::Or => 36,
        TokenKind::Not => 37,
        TokenKind::ColonEq => 38,
        TokenKind::Arrow => 39,
        TokenKind::LeftArrow => 40,
        TokenKind::FatArrow => 41,
        TokenKind::Times => 42,
        TokenKind::LParen => 43,
        TokenKind::RParen => 44,
        TokenKind::LBrace => 45,
        TokenKind::RBrace => 46,
        TokenKind::Colon => 47,
        TokenKind::Comma => 48,
        TokenKind::Dot => 49,
        TokenKind::Pipe => 50,
        TokenKind::HashEval => 51,
        TokenKind::Underscore => 52,
        TokenKind::Newline => 53,
        TokenKind::Indent => 54,
        TokenKind::Dedent => 55,
        TokenKind::Eof => 56,
    }
}

/// The variant name of a kind, as its derived `Debug` output starts.
pub open spec fn kind_name(k: TokenKind) -> Seq<char> {
    match k {
        TokenKind::Def => "Def"@,
        TokenKind::Let => "Let"@,
        TokenKind::In => "In"@,
        TokenKind::If => "If"@,
        TokenKind::Then => "Then"@,
        TokenKind::Else => "Else"@,
        TokenKind::Match => "Match"@,
        TokenKind::With => "With"@,
        TokenKind::Do => "Do"@,
        TokenKind::Where => "Where"@,
        TokenKind::Inductive => "Inductive"@,
        TokenKind::Fun => "Fun"@,
        TokenKind::Structure => "Structure"@,
        TokenKind::Import => "Import"@,
        TokenKind::Open => "Open"@,
        TokenKind::Namespace => "Namespace"@,
        TokenKind::End => "End"@,
        TokenKind::IntLit(_) => "IntLit"@,
        TokenKind::StringLit(_) => "StringLit"@,
        TokenKind::InterpolatedString(_) => "InterpolatedString"@,
        TokenKind::True => "True"@,
        TokenKind::False => "False"@,
        TokenKind::Ident(_) => "Ident"@,
        TokenKind::Plus => "Plus"@,
        TokenKind::Minus => "Minus"@,
        TokenKind::Star => "Star"@,
        TokenKind::Slash => "Slash"@,
        TokenKind::Percent => "Percent"@,
        TokenKind::Eq => "Eq"@,
        TokenKind::EqEq => "EqEq"@,
        TokenKind::Ne => "Ne"@,
        TokenKind::Lt => "Lt"@,
        TokenKind::Le => "Le"@,
        TokenKind::Gt => "Gt"@,
        TokenKind::Ge => "Ge"@,
        TokenKind::And => "And"@,
        TokenKind::Or => "Or"@,
        TokenKind::Not => "Not"@,
        TokenKind::ColonEq => "ColonEq"@,
        TokenKind::Arrow => "Arrow"@,
        TokenKind::LeftArrow => "LeftArrow"@,
        TokenKind::FatArrow => "FatArrow"@,
        TokenKind::Times => "Times"@,
        TokenKind::LParen => "LParen"@,
        TokenKind::RParen => "RParen"@,
        TokenKind::LBrace => "LBrace"@,
        TokenKind::RBrace => "RBrace"@,
        TokenKind::Colon => "Colon"@,
        TokenKind::Comma => "Comma"@,
        TokenKind::Dot => "Dot"@,
        TokenKind::Pipe => "Pipe"@,
        TokenKind::HashEval => "HashEval"@,
        TokenKind::Underscore => "Underscore"@,
        TokenKind::Newline => "Newline"@,
        TokenKind::Indent => "Indent"@,
        TokenKind::Dedent => "Dedent"@,
        TokenKind::Eof => "Eof"@,
    }
}

/// Appends the variant name of `k` to `out`.
pub fn push_kind_name(out: &mut String, k: &TokenKind)
    ensures
        final(out)@ == old(out)@ + kind_name(*k),
{
    match k {
        TokenKind::Def => { out.append("Def"); proof { reveal_strlit("Def"); } }
        TokenKind::Let => { out.append("Let"); proof { reveal_strlit("Let"); } }
        TokenKind::In => { out.append("In"); proof { reveal_strlit("In"); } }
        TokenKind::If => { out.append("If"); proof { reveal_strlit("If"); } }
        TokenKind::Then => { out.append("Then"); proof { reveal_strlit("Then"); } }
        TokenKind::Else => { out.append("Else"); proof { reveal_strlit("Else"); } }
        TokenKind::Match => { out.append("Match"); proof { reveal_strlit("Match"); } }
        TokenKind::With => { out.append("With"); proof { reveal_strlit("With"); } }
        TokenKind::Do => { out.append("Do"); proof { reveal_strlit("Do"); } }
        TokenKind::Where => { out.append("Where"); proof { reveal_strlit("Where"); } }
        TokenKind::Inductive => { out.append("Inductive"); proof { reveal_strlit("Inductive"); } }
        TokenKind::Fun => { out.append("Fun"); proof { reveal_strlit("Fun"); } }
        TokenKind::Structure => { out.append("Structure"); proof { reveal_strlit("Structure"); } }
        TokenKind::Import => { out.append("Import"); proof { reveal_strlit("Import"); } }
        TokenKind::Open => { out.append("Open"); proof { reveal_strlit("Open"); } }
        TokenKind::Namespace => { out.append("Namespace"); proof { reveal_strlit("Namespace"); } }
        TokenKind::End => { out.append("End"); proof { reveal_strlit("End"); } }
        TokenKind::IntLit(_) => { out.append("IntLit"); proof { reveal_strlit("IntLit"); } }
        TokenKind::StringLit(_) => { out.append("StringLit"); proof { reveal_strlit("StringLit"); } }
        TokenKind::InterpolatedString(_) => { out.append("InterpolatedString"); proof { reveal_strlit("InterpolatedString"); } }
        TokenKind::True => { out.append("True"); proof { reveal_strlit("True"); } }
        TokenKind::False => { out.append("False"); proof { reveal_strlit("False"); } }
        TokenKind::Ident(_) => { out.append("Ident"); proof { reveal_strlit("Ident"); } }
        TokenKind::Plus => { out.append("Plus"); proof { reveal_strlit("Plus"); } }
        TokenKind::Minus => { out.append("Minus"); proof { reveal_strlit("Minus"); } }
        TokenKind::Star => { out.append("Star"); proof { reveal_strlit("Star"); } }
        TokenKind::Slash => { out.append("Slash"); proof { reveal_strlit("Slash"); } }
        TokenKind::Percent => { out.append("Percent"); proof { reveal_strlit("Percent"); } }
        TokenKind::Eq => { out.append("Eq"); proof { reveal_strlit("Eq"); } }
        TokenKind::EqEq => { out.append("EqEq"); proof { reveal_strlit("EqEq"); } }
        TokenKind::Ne => { out.append("Ne"); proof { reveal_strlit("Ne"); } }
        TokenKind::Lt => { out.append("Lt"); proof { reveal_strlit("Lt"); } }
        TokenKind::Le => { out.append("Le"); proof { reveal_strlit("Le"); } }
        TokenKind::Gt => { out.append("Gt"); proof { reveal_strlit("Gt"); } }
        TokenKind::Ge => { out.append("Ge"); proof { reveal_strlit("Ge"); } }
        TokenKind::And => { out.append("And"); proof { reveal_strlit("And"); } }
        TokenKind::Or => { out.append("Or"); proof { reveal_strlit("Or"); } }
        TokenKind::Not => { out.append("Not"); proof { reveal_strlit("Not"); } }
        TokenKind::ColonEq => { out.append("ColonEq"); proof { reveal_strlit("ColonEq"); } }
        TokenKind::Arrow => { out.append("Arrow"); proof { reveal_strlit("Arrow"); } }
        TokenKind::LeftArrow => { out.append("LeftArrow"); proof { reveal_strlit("LeftArrow"); } }
        TokenKind::FatArrow => { out.append("FatArrow"); proof { reveal_strlit("FatArrow"); } }
        TokenKind::Times => { out.append("Times"); proof { reveal_strlit("Times"); } }
        TokenKind::LParen => { out.append("LParen"); proof { reveal_strlit("LParen"); } }
        TokenKind::RParen => { out.append("RParen"); proof { reveal_strlit("RParen"); } }
        TokenKind::LBrace => { out.append("LBrace"); proof { reveal_strlit("LBrace"); } }
        TokenKind::RBrace => { out.append("RBrace"); proof { reveal_strlit("RBrace"); } }
        TokenKind::Colon => { out.append("Colon"); proof { reveal_strlit("Colon"); } }
        TokenKind::Comma => { out.append("Comma"); proof { reveal_strlit("Comma"); } }
        TokenKind::Dot => { out.append("Dot"); proof { reveal_strlit("Dot"); } }
        TokenKind::Pipe => { out.append("Pipe"); proof { reveal_strlit("Pipe"); } }
        TokenKind::HashEval => { out.append("HashEval"); proof { reveal_strlit("HashEval"); } }
        TokenKind::Underscore => { out.append("Underscore"); proof { reveal_strlit("Underscore"); } }
        TokenKind::Newline => { out.append("Newline"); proof { reveal_strlit("Newline"); } }
        TokenKind::Indent => { out.append("Indent"); proof { reveal_strlit("Indent"); } }
        TokenKind::Dedent => { out.append("Dedent"); proof { reveal_strlit("Dedent"); } }
        TokenKind::Eof => { out.append("Eof"); proof { reveal_strlit("Eof"); } }
    }
}


/// How `Debug` escapes one character inside a quoted string.
pub open spec fn escape_debug_char(c: char) -> Seq<char> {
    if c == '"' {
        seq!['\\', '"']
    } else if c == '\\' {
        seq!['\\', '\\']
    } else if c == '\n' {
        seq!['\\', 'n']
    } else if c == '\t' {
        seq!['\\', 't']
    } else if c == '\r' {
        seq!['\\', 'r']
    } else if c == '\0' {
        seq!['\\', '0']
    } else {
        seq![c]
    }
}

/// The escaped characters of `s`.
pub open spec fn escape_debug(s: Seq<char>) -> Seq<char>
    decreases s.len(),
{
    if s.len() == 0 {
        seq![]
    } else {
        escape_debug(s.drop_last()) + escape_debug_char(s.last())
    }
}

/// `s` quoted as `Debug` shows a string.
pub open spec fn quoted_debug(s: Seq<char>) -> Seq<char> {
    seq!['"'] + escape_debug(s) + seq!['"']
}

/// A token kind as `Debug` shows it: the variant name, then the payload in
/// parentheses.
pub open spec fn kind_debug(k: TokenKind) -> Seq<char> {
    match k {
        TokenKind::IntLit(n) => "IntLit("@ + crate::text::decimal(n as nat) + seq![')'],
        TokenKind::StringLit(s) => "StringLit("@ + quoted_debug(s@) + seq![')'],
        TokenKind::InterpolatedString(s) => "InterpolatedString("@ + quoted_debug(s@) + seq![')'],
        TokenKind::Ident(s) => "Ident("@ + quoted_debug(s@) + seq![')'],
        _ => kind_name(k),
    }
}

/// Appends `s` quoted as `Debug` shows a string.
pub fn push_quoted_debug(out: &mut String, s: &String)
    ensures
        final(out)@ == old(out)@ + quoted_debug(s@),
{
    let ghost start = out@;
    let chars = crate::text::chars_of(s.as_str());
    push_char(out, '"');
    let mut i: usize = 0;
    while i < chars.len()
        invariant
            i <= chars@.len(),
            chars@ == s@,
            out@ == start + seq!['"'] + escape_debug(chars@.take(i as int)),
        decreases chars.len() - i,
    {
        let c = chars[i];
        let ghost before = out@;
        if c == '"' {
            push_char(out, '\\');
            push_char(out, '"');
        } else if c == '\\' {
            push_char(out, '\\');
            push_char(out, '\\');
        } else if c == '\n' {
            push_char(out, '\\');
            push_char(out, 'n');
        } else if c == '\t' {
            push_char(out, '\\');
            push_char(out, 't');
        } else if c == '\r' {
            push_char(out, '\\');
            push_char(out, 'r');
        } else if c == '\0' {
            push_char(out, '\\');
            push_char(out, '0');
        } else {
            push_char(out, c);
        }
        assert(out@ =~= before + escape_debug_char(c));
        assert(chars@.take(i + 1).drop_last() =~= chars@.take(i as int));
        i += 1;
    }
    assert(chars@.take(chars@.len() as int) =~= chars@);
    push_char(out, '"');
    assert(out@ =~= start + quoted_debug(s@));
}

/// Appends `k` as `Debug` shows it.
pub fn push_kind_debug(out: &mut String, k: &TokenKind)
    ensures
        final(out)@ == old(out)@ + kind_debug(*k),
{
    let ghost start = out@;
    match k {
        TokenKind::IntLit(n) => {
            out.append("IntLit(");
            crate::text::push_decimal(out, *n);
            push_char(out, ')');
        },
        TokenKind::StringLit(s) => {
            out.append("StringLit(");
            push_quoted_debug(out, s);
            push_char(out, ')');
        },
        TokenKind::InterpolatedString(s) => {
            out.append("InterpolatedString(");
            push_quoted_debug(out, s);
            push_char(out, ')');
        },
        TokenKind::Ident(s) => {
            out.append("Ident(");
            push_quoted_debug(out, s);
            push_char(out, ')');
        },
        _ => {
            push_kind_name(out, k);
        },
    }
    assert(out@ =~= start + kind_debug(*k));
}

} // verus!
