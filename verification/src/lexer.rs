//! The lexer: source text to tokens, with layout tokens (`Newline`, `Indent`,
//! `Dedent`) computed from indentation.

use vstd::prelude::*;

use crate::error::{CompilerError, LustcResult, Span};
use crate::text::{
    chars_of, eq_lit, is_alphabetic, is_alphanumeric, lemma_utf8_len_bound, push_char, run_end,
    string_from_prefix, unicode_alphabetic, unicode_alphanumeric, utf8_len, utf8_len_of,
};
use crate::token::{Token, TokenKind};

verus! {

/// Line and column (both 1-based) of position `p` in `s`.
pub open spec fn line_col(s: Seq<char>, p: int) -> (int, int)
    decreases p,
{
    if p <= 0 {
        (1, 1)
    } else {
        let (l, c) = line_col(s, p - 1);
        if s[p - 1] == '\n' {
            (l + 1, 1)
        } else {
            (l, c + 1)
        }
    }
}

pub proof fn lemma_line_col_bounds(s: Seq<char>, p: int)
    requires
        p >= 0,
    ensures
        1 <= line_col(s, p).0 <= p + 1,
        1 <= line_col(s, p).1 <= p + 1,
    decreases p,
{
    if p > 0 {
        lemma_line_col_bounds(s, p - 1);
    }
}

/// +1 for an `Indent`, -1 for a `Dedent`, 0 for any other token.
pub open spec fn token_delta(t: Token) -> int {
    if t.kind is Indent {
        1
    } else if t.kind is Dedent {
        -1
    } else {
        0
    }
}

/// The number of `Indent`s minus the number of `Dedent`s in `ts`.
pub open spec fn layout_balance(ts: Seq<Token>) -> int
    decreases ts.len(),
{
    if ts.len() == 0 {
        0
    } else {
        layout_balance(ts.drop_last()) + token_delta(ts.last())
    }
}

pub proof fn lemma_balance_all_dedents(ts: Seq<Token>)
    requires
        forall|i: int| 0 <= i < ts.len() ==> (#[trigger] ts[i]).kind is Dedent,
    ensures
        layout_balance(ts) == -(ts.len() as int),
    decreases ts.len(),
{
    if ts.len() > 0 {
        lemma_balance_all_dedents(ts.drop_last());
    }
}

pub open spec fn is_space(c: char) -> bool {
    c == ' ' || c == '\t' || c == '\r'
}

pub open spec fn is_digit(c: char) -> bool {
    '0' <= c && c <= '9'
}

/// Whether a token's span starts on a real line and column.
pub open spec fn span_in_source(t: Token) -> bool {
    t.span.line >= 1 && t.span.column >= 1
}

pub struct Lexer {
    source: Vec<char>,
    pos: usize,
    line: usize,
    column: usize,
    indent_stack: Vec<usize>,
    pending_tokens: Vec<Token>,
    at_line_start: bool,
}

impl Lexer {
    pub closed spec fn source(&self) -> Seq<char> {
        self.source@
    }

    pub closed spec fn pos(&self) -> int {
        self.pos as int
    }

    pub closed spec fn levels(&self) -> Seq<usize> {
        self.indent_stack@
    }

    pub closed spec fn pending(&self) -> Seq<Token> {
        self.pending_tokens@
    }

    pub closed spec fn at_line_start(&self) -> bool {
        self.at_line_start
    }

    /// Where the lexer stands, as a `LexState`.
    pub closed spec fn state(&self) -> LexState {
        LexState {
            pos: self.pos as int,
            levels: self.indent_stack@,
            pending: self.pending_tokens@,
            at_line_start: self.at_line_start,
        }
    }

    /// The open indentation levels that have not been answered by a
    /// `Dedent` yet: what the token stream still owes.
    pub closed spec fn open_levels(&self) -> int {
        self.indent_stack@.len() - 1 - layout_balance(self.pending_tokens@)
    }

    pub closed spec fn wf(&self) -> bool {
        &&& self.source@.len() <= usize::MAX / 8
        &&& self.pos <= self.source@.len()
        &&& (self.line as int, self.column as int) == line_col(self.source@, self.pos as int)
        &&& self.indent_stack@.len() >= 1
        &&& self.indent_stack@[0] == 0
        &&& forall|i: int, j: int|
            0 <= i < j < self.indent_stack@.len() ==> self.indent_stack@[i] < self.indent_stack@[j]
        &&& forall|i: int|
            0 <= i < self.pending_tokens@.len() ==> span_in_source(
                #[trigger] self.pending_tokens@[i],
            )
        &&& (forall|i: int|
            0 <= i < self.pending_tokens@.len() ==> (#[trigger] self.pending_tokens@[i]).kind is Dedent)
            || (self.pending_tokens@.len() == 1 && self.pending_tokens@[0].kind is Indent
            && self.indent_stack@.len() >= 2)
    }

    /// Only the position moved (and line and column with it).
    pub closed spec fn moved_from(&self, old: &Lexer) -> bool {
        &&& self.wf()
        &&& self.source@ == old.source@
        &&& self.indent_stack@ == old.indent_stack@
        &&& self.pending_tokens@ == old.pending_tokens@
        &&& self.at_line_start == old.at_line_start
        &&& self.pos >= old.pos
    }

    pub proof fn lemma_open_levels_nonneg(&self)
        requires
            self.wf(),
        ensures
            self.open_levels() >= 0,
    {
        if self.pending_tokens@.len() == 1 && self.pending_tokens@[0].kind is Indent
            && self.indent_stack@.len() >= 2 {
            assert(self.pending_tokens@.drop_last() =~= Seq::<Token>::empty());
            assert(layout_balance(Seq::<Token>::empty()) == 0);
            assert(token_delta(self.pending_tokens@.last()) == 1);
        } else {
            lemma_balance_all_dedents(self.pending_tokens@);
        }
    }

    pub fn new(source: &str) -> (lx: Lexer)
        requires
            source@.len() <= usize::MAX / 8,
        ensures
            lx.wf(),
            lx.source() == source@,
            lx.pos() == 0,
            lx.levels() == seq![0usize],
            lx.pending().len() == 0,
            lx.at_line_start(),
            lx.open_levels() == 0,
            lx.state() == start_state(),
    {
        let lx = Lexer {
            source: chars_of(source),
            pos: 0,
            line: 1,
            column: 1,
            indent_stack: vec![0],
            pending_tokens: Vec::new(),
            at_line_start: true,
        };
        assert(lx.indent_stack@ =~= seq![0usize]);
        assert(layout_balance(lx.pending_tokens@) == 0);
        lx
    }

    fn peek_char(&self) -> (c: char)
        requires
            self.wf(),
            self.pos < self.source@.len(),
        ensures
            c == self.source@[self.pos as int],
    {
        self.source[self.pos]
    }

    fn peek_char_at(&self, offset: usize) -> (r: Option<char>)
        requires
            self.wf(),
            offset <= 2,
        ensures
            self.pos + offset < self.source@.len() ==> r == Some(self.source@[self.pos + offset]),
            self.pos + offset >= self.source@.len() ==> r is None,
    {
        let i = self.pos + offset;
        if i < self.source.len() {
            Some(self.source[i])
        } else {
            None
        }
    }

    fn is_at_end(&self) -> (r: bool)
        requires
            self.wf(),
        ensures
            r == (self.pos >= self.source@.len()),
    {
        self.pos >= self.source.len()
    }

    /// Steps over one character, keeping line and column in step.
    fn advance_char(&mut self)
        requires
            old(self).wf(),
        ensures
            final(self).moved_from(old(self)),
            final(self).pos == if old(self).pos < old(self).source@.len() {
                old(self).pos + 1
            } else {
                old(self).pos as int
            },
    {
        if self.pos < self.source.len() {
            proof {
                lemma_line_col_bounds(self.source@, self.pos as int);
            }
            if self.source[self.pos] == '\n' {
                self.line = self.line + 1;
                self.column = 1;
            } else {
                self.column = self.column + 1;
            }
            self.pos = self.pos + 1;
        }
    }

    fn skip_spaces(&mut self)
        requires
            old(self).wf(),
        ensures
            final(self).moved_from(old(self)),
            forall|i: int|
                old(self).pos <= i < final(self).pos ==> is_space(#[trigger] final(self).source@[i]),
            final(self).pos == final(self).source@.len() || !is_space(
                final(self).source@[final(self).pos as int],
            ),
            final(self).pos == run_end(old(self).source@, old(self).pos as int, space_pred()),
    {
        while !self.is_at_end()
            invariant
                self.moved_from(old(self)),
                forall|i: int| old(self).pos <= i < self.pos ==> is_space(#[trigger] self.source@[i]),
            ensures
                self.pos == self.source@.len() || !is_space(self.source@[self.pos as int]),
            decreases self.source@.len() - self.pos,
        {
            let ch = self.peek_char();
            if ch == ' ' || ch == '\t' || ch == '\r' {
                self.advance_char();
            } else {
                break;
            }
        }
        proof {
            crate::text::lemma_run_end_at(self.source@, old(self).pos as int, self.pos as int, space_pred());
        }
    }

    /// Skips to the end of the line (the newline itself is left).
    fn skip_line_comment(&mut self)
        requires
            old(self).wf(),
        ensures
            final(self).moved_from(old(self)),
            forall|i: int|
                old(self).pos <= i < final(self).pos ==> #[trigger] final(self).source@[i] != '\n',
            final(self).pos == final(self).source@.len()
                || final(self).source@[final(self).pos as int] == '\n',
            final(self).pos == run_end(old(self).source@, old(self).pos as int, not_newline_pred()),
    {
        while !self.is_at_end() && self.peek_char() != '\n'
            invariant
                self.moved_from(old(self)),
                forall|i: int| old(self).pos <= i < self.pos ==> #[trigger] self.source@[i] != '\n',
            decreases self.source@.len() - self.pos,
        {
            self.advance_char();
        }
        proof {
            crate::text::lemma_run_end_at(self.source@, old(self).pos as int, self.pos as int, not_newline_pred());
        }
    }
}


/// Where a nest of block comments that is `depth` deep at `i` closes
/// (`None`: it never does).
pub open spec fn block_comment_end(s: Seq<char>, i: int, depth: nat) -> Option<int>
    decreases s.len() - i,
{
    if depth == 0 {
        Some(i)
    } else if i < 0 || i >= s.len() {
        None
    } else if s[i] == '/' && i + 1 < s.len() && s[i + 1] == '-' {
        block_comment_end(s, i + 2, depth + 1)
    } else if s[i] == '-' && i + 1 < s.len() && s[i + 1] == '/' {
        block_comment_end(s, i + 2, (depth - 1) as nat)
    } else {
        block_comment_end(s, i + 1, depth)
    }
}

pub proof fn lemma_block_comment_end(s: Seq<char>, i: int, depth: nat)
    requires
        0 <= i <= s.len(),
    ensures
        block_comment_end(s, i, depth) matches Some(e) ==> i <= e <= s.len(),
    decreases s.len() - i,
{
    if depth != 0 && i < s.len() {
        if s[i] == '/' && i + 1 < s.len() && s[i + 1] == '-' {
            lemma_block_comment_end(s, i + 2, depth + 1);
        } else if s[i] == '-' && i + 1 < s.len() && s[i + 1] == '/' {
            lemma_block_comment_end(s, i + 2, (depth - 1) as nat);
        } else {
            lemma_block_comment_end(s, i + 1, depth);
        }
    }
}

pub open spec fn alphabetic_pred() -> spec_fn(char) -> bool {
    |c: char| unicode_alphabetic(c)
}

pub open spec fn ident_pred() -> spec_fn(char) -> bool {
    |c: char| unicode_alphanumeric(c) || c == '_'
}

pub open spec fn digit_pred() -> spec_fn(char) -> bool {
    |c: char| is_digit(c)
}

/// The value of a string of decimal digits.
pub open spec fn digits_value(d: Seq<char>) -> nat
    decreases d.len(),
{
    if d.len() == 0 {
        0
    } else {
        digits_value(d.drop_last()) * 10 + ((d.last() as u32) - ('0' as u32)) as nat
    }
}

/// The kind a keyword stands for, or `None` for an ordinary identifier.
pub open spec fn keyword_kind(name: Seq<char>) -> Option<TokenKind> {
    if name == "def"@ {
        Some(TokenKind::Def)
    } else if name == "let"@ {
        Some(TokenKind::Let)
    } else if name == "in"@ {
        Some(TokenKind::In)
    } else if name == "if"@ {
        Some(TokenKind::If)
    } else if name == "then"@ {
        Some(TokenKind::Then)
    } else if name == "else"@ {
        Some(TokenKind::Else)
    } else if name == "match"@ {
        Some(TokenKind::Match)
    } else if name == "with"@ {
        Some(TokenKind::With)
    } else if name == "do"@ {
        Some(TokenKind::Do)
    } else if name == "where"@ {
        Some(TokenKind::Where)
    } else if name == "inductive"@ {
        Some(TokenKind::Inductive)
    } else if name == "fun"@ {
        Some(TokenKind::Fun)
    } else if name == "structure"@ {
        Some(TokenKind::Structure)
    } else if name == "import"@ {
        Some(TokenKind::Import)
    } else if name == "open"@ {
        Some(TokenKind::Open)
    } else if name == "namespace"@ {
        Some(TokenKind::Namespace)
    } else if name == "end"@ {
        Some(TokenKind::End)
    } else if name == "true"@ {
        Some(TokenKind::True)
    } else if name == "false"@ {
        Some(TokenKind::False)
    } else {
        None
    }
}

/// What an escape `\c` stands for inside a string literal; interpolated
/// strings also take `\{` and `\}`.
pub open spec fn unescape(c: char, interp: bool) -> Seq<char> {
    if c == 'n' {
        seq!['\n']
    } else if c == 't' {
        seq!['\t']
    } else if c == '\\' {
        seq!['\\']
    } else if c == '"' {
        seq!['"']
    } else if interp && (c == '{' || c == '}') {
        seq![c]
    } else {
        seq!['\\', c]
    }
}

/// The decoded contents of a string literal whose body starts at `i`, and
/// where the scan stopped: at the closing quote, or at the end of the source
/// when there is none.
pub open spec fn scan_quoted(s: Seq<char>, i: int, interp: bool) -> (Seq<char>, int)
    decreases s.len() - i,
{
    if i < 0 || i >= s.len() || s[i] == '"' {
        (seq![], i)
    } else if s[i] == '\\' {
        if i + 1 >= s.len() {
            (seq![], s.len() as int)
        } else {
            let (rest, j) = scan_quoted(s, i + 2, interp);
            (unescape(s[i + 1], interp) + rest, j)
        }
    } else {
        let (rest, j) = scan_quoted(s, i + 1, interp);
        (seq![s[i]] + rest, j)
    }
}

pub proof fn lemma_scan_quoted(s: Seq<char>, i: int, interp: bool)
    requires
        0 <= i <= s.len(),
    ensures
        i <= scan_quoted(s, i, interp).1 <= s.len(),
        scan_quoted(s, i, interp).0.len() <= s.len() - i,
        scan_quoted(s, i, interp).1 < s.len() ==> s[scan_quoted(s, i, interp).1] == '"',
    decreases s.len() - i,
{
    if i < s.len() && s[i] != '"' {
        if s[i] == '\\' {
            if i + 1 < s.len() {
                lemma_scan_quoted(s, i + 2, interp);
            }
        } else {
            lemma_scan_quoted(s, i + 1, interp);
        }
    }
}

/// The operator or delimiter that starts with `c` (followed by `next`), and
/// how many characters it spans; `None` for a character that starts none.
pub open spec fn operator_kind(c: char, next: Option<char>) -> Option<(TokenKind, int)> {
    if c == '+' {
        Some((TokenKind::Plus, 1))
    } else if c == '*' {
        Some((TokenKind::Star, 1))
    } else if c == '/' {
        Some((TokenKind::Slash, 1))
    } else if c == '%' {
        Some((TokenKind::Percent, 1))
    } else if c == '(' {
        Some((TokenKind::LParen, 1))
    } else if c == ')' {
        Some((TokenKind::RParen, 1))
    } else if c == '{' {
        Some((TokenKind::LBrace, 1))
    } else if c == '}' {
        Some((TokenKind::RBrace, 1))
    } else if c == ',' {
        Some((TokenKind::Comma, 1))
    } else if c == '.' {
        Some((TokenKind::Dot, 1))
    } else if c == '|' {
        if next == Some('|') {
            Some((TokenKind::Or, 2))
        } else {
            Some((TokenKind::Pipe, 1))
        }
    } else if c == '-' {
        if next == Some('>') {
            Some((TokenKind::Arrow, 2))
        } else {
            Some((TokenKind::Minus, 1))
        }
    } else if c == '=' {
        if next == Some('>') {
            Some((TokenKind::FatArrow, 2))
        } else if next == Some('=') {
            Some((TokenKind::EqEq, 2))
        } else {
            Some((TokenKind::Eq, 1))
        }
    } else if c == ':' {
        if next == Some('=') {
            Some((TokenKind::ColonEq, 2))
        } else {
            Some((TokenKind::Colon, 1))
        }
    } else if c == '!' {
        if next == Some('=') {
            Some((TokenKind::Ne, 2))
        } else {
            Some((TokenKind::Not, 1))
        }
    } else if c == '<' {
        if next == Some('=') {
            Some((TokenKind::Le, 2))
        } else if next == Some('-') {
            Some((TokenKind::LeftArrow, 2))
        } else {
            Some((TokenKind::Lt, 1))
        }
    } else if c == '>' {
        if next == Some('=') {
            Some((TokenKind::Ge, 2))
        } else {
            Some((TokenKind::Gt, 1))
        }
    } else if c == '&' {
        if next == Some('&') {
            Some((TokenKind::And, 2))
        } else {
            None
        }
    } else if c == '_' {
        Some((TokenKind::Underscore, 1))
    } else {
        None
    }
}

/// The character after position `i`, if there is one.
pub open spec fn char_at(s: Seq<char>, i: int) -> Option<char> {
    if 0 <= i < s.len() {
        Some(s[i])
    } else {
        None
    }
}

/// The span from position `start` to column `end_col` on the same line.
pub open spec fn span_at(s: Seq<char>, start: int, end_col: int) -> Span {
    Span {
        line: line_col(s, start).0 as usize,
        column: line_col(s, start).1 as usize,
        end_column: end_col as usize,
    }
}

/// A lexing error with this message and span.
pub open spec fn is_lex_error(e: CompilerError, msg: Seq<char>, span: Span) -> bool {
    e matches CompilerError::LexError { msg: m, span: sp } && m@ == msg && sp == span
}

impl Lexer {
    fn skip_block_comment(&mut self) -> (r: LustcResult<()>)
        requires
            old(self).wf(),
            old(self).pos + 1 < old(self).source@.len(),
            old(self).source@[old(self).pos as int] == '/',
            old(self).source@[old(self).pos + 1] == '-',
        ensures
            final(self).moved_from(old(self)),
            match block_comment_end(old(self).source@, old(self).pos + 2, 1) {
                Some(e) => r is Ok && final(self).pos == e,
                None => r matches Err(err) && final(self).pos == old(self).source@.len()
                    && is_lex_error(
                    err,
                    "unterminated block comment"@,
                    span_at(old(self).source@, old(self).pos as int, old(self).column + 2),
                ),
            },
    {
        proof {
            lemma_line_col_bounds(self.source@, self.pos as int);
        }
        let start_span = Span { line: self.line, column: self.column, end_column: self.column + 2 };
        self.advance_char();
        self.advance_char();
        let mut depth: usize = 1;
        proof {
            lemma_block_comment_end(self.source@, self.pos as int, 1);
        }
        while !self.is_at_end() && depth > 0
            invariant
                self.moved_from(old(self)),
                self.pos >= old(self).pos + 2,
                depth <= self.pos,
                block_comment_end(self.source@, self.pos as int, depth as nat)
                    == block_comment_end(old(self).source@, old(self).pos + 2, 1),
            decreases self.source@.len() - self.pos,
        {
            if self.peek_char() == '/' && self.peek_char_at(1) == Some('-') {
                depth += 1;
                self.advance_char();
                self.advance_char();
            } else if self.peek_char() == '-' && self.peek_char_at(1) == Some('/') {
                depth -= 1;
                self.advance_char();
                self.advance_char();
            } else {
                self.advance_char();
            }
        }
        if depth > 0 {
            let mut msg = String::new();
            msg.append("unterminated block comment");
            return Err(CompilerError::LexError { msg, span: start_span });
        }
        Ok(())
    }

    fn lex_hash(&mut self) -> (r: LustcResult<Token>)
        requires
            old(self).wf(),
            old(self).pos < old(self).source@.len(),
            old(self).source@[old(self).pos as int] == '#',
        ensures
            final(self).moved_from(old(self)),
            final(self).pos > old(self).pos,
            r matches Ok(tok) ==> span_in_source(tok),
            ({
                let s = old(self).source@;
                let p = old(self).pos as int;
                let e = run_end(s, p + 1, alphabetic_pred());
                let word = s.subrange(p + 1, e);
                let span = span_at(s, p, old(self).column + 1 + utf8_len(word));
                &&& final(self).pos == e
                &&& word == "eval"@ ==> (r matches Ok(t) && t.kind == TokenKind::HashEval
                    && t.span == span)
                &&& word != "eval"@ ==> (r matches Err(err) && is_lex_error(
                    err,
                    "unexpected directive: #"@ + word,
                    span,
                ))
            }),
    {
        proof {
            lemma_line_col_bounds(self.source@, self.pos as int);
        }
        let start_col = self.column;
        let start_line = self.line;
        self.advance_char();
        let ghost s = self.source@;
        proof {
            crate::text::lemma_run_end(s, self.pos as int, alphabetic_pred());
        }
        let mut word: Vec<char> = Vec::new();
        while !self.is_at_end() && is_alphabetic(self.peek_char())
            invariant
                self.moved_from(old(self)),
                self.pos >= old(self).pos + 1,
                s == self.source@,
                word@ == s.subrange(old(self).pos + 1, self.pos as int),
                run_end(s, self.pos as int, alphabetic_pred()) == run_end(
                    s,
                    old(self).pos + 1,
                    alphabetic_pred(),
                ),
            decreases self.source@.len() - self.pos,
        {
            let c = self.peek_char();
            let ghost at = self.pos as int;
            assert(alphabetic_pred()(c));
            word.push(c);
            self.advance_char();
            assert(word@ =~= s.subrange(old(self).pos + 1, self.pos as int));
            assert(run_end(s, at, alphabetic_pred()) == run_end(s, at + 1, alphabetic_pred()));
        }
        proof {
            lemma_utf8_len_bound(word@);
        }
        let n = utf8_len_of(&word);
        let end_col = start_col + 1 + n;
        if eq_lit(&word, "eval") {
            Ok(Token::new(TokenKind::HashEval, start_line, start_col, end_col))
        } else {
            let mut msg = String::new();
            msg.append("unexpected directive: #");
            let w = string_from_prefix(&word, word.len());
            msg.append(w.as_str());
            assert(word@.take(word@.len() as int) =~= word@);
            Err(
                CompilerError::LexError {
                    msg,
                    span: Span { line: start_line, column: start_col, end_column: end_col },
                },
            )
        }
    }
}


impl Lexer {
    fn lex_number(&mut self) -> (r: LustcResult<Token>)
        requires
            old(self).wf(),
            old(self).pos < old(self).source@.len(),
            is_digit(old(self).source@[old(self).pos as int]),
        ensures
            final(self).moved_from(old(self)),
            final(self).pos > old(self).pos,
            r matches Ok(tok) ==> span_in_source(tok),
            ({
                let s = old(self).source@;
                let p = old(self).pos as int;
                let e = run_end(s, p, digit_pred());
                let digits = s.subrange(p, e);
                let span = span_at(s, p, old(self).column + (e - p));
                &&& final(self).pos == e
                &&& digits_value(digits) <= u64::MAX ==> (r matches Ok(t) && t.kind
                    == TokenKind::IntLit(digits_value(digits) as u64) && t.span == span)
                &&& digits_value(digits) > u64::MAX ==> (r matches Err(err) && is_lex_error(
                    err,
                    "invalid number: "@ + digits,
                    span,
                ))
            }),
    {
        proof {
            lemma_line_col_bounds(self.source@, self.pos as int);
        }
        let start_col = self.column;
        let start_line = self.line;
        let start_pos = self.pos;
        let ghost s = self.source@;
        let mut num_str = String::new();
        let mut value: u64 = 0;
        let mut overflow = false;
        while !self.is_at_end() && '0' <= self.peek_char() && self.peek_char() <= '9'
            invariant
                self.moved_from(old(self)),
                start_pos == old(self).pos,
                s == self.source@,
                num_str@ == s.subrange(old(self).pos as int, self.pos as int),
                !overflow ==> value == digits_value(num_str@),
                overflow ==> digits_value(num_str@) > u64::MAX,
                run_end(s, self.pos as int, digit_pred()) == run_end(
                    s,
                    old(self).pos as int,
                    digit_pred(),
                ),
            decreases self.source@.len() - self.pos,
        {
            let c = self.peek_char();
            let ghost at = self.pos as int;
            let ghost before = num_str@;
            assert(digit_pred()(c));
            let d = ((c as u32) - ('0' as u32)) as u64;
            if !overflow {
                if value > (u64::MAX - d) / 10 {
                    overflow = true;
                } else {
                    value = value * 10 + d;
                }
            }
            push_char(&mut num_str, c);
            self.advance_char();
            assert(num_str@ =~= s.subrange(old(self).pos as int, self.pos as int));
            assert(num_str@.drop_last() =~= before);
            assert(run_end(s, at, digit_pred()) == run_end(s, at + 1, digit_pred()));
        }
        let n = self.pos - start_pos;
        let end_col = start_col + n;
        let span = Span { line: start_line, column: start_col, end_column: end_col };
        if overflow {
            let mut msg = String::new();
            msg.append("invalid number: ");
            msg.append(num_str.as_str());
            Err(CompilerError::LexError { msg, span })
        } else {
            Ok(Token::new(TokenKind::IntLit(value), start_line, start_col, end_col))
        }
    }

    fn lex_operator(&mut self) -> (r: LustcResult<Token>)
        requires
            old(self).wf(),
            old(self).pos < old(self).source@.len(),
        ensures
            final(self).moved_from(old(self)),
            final(self).pos > old(self).pos,
            r matches Ok(tok) ==> span_in_source(tok),
            ({
                let s = old(self).source@;
                let p = old(self).pos as int;
                let c = s[p];
                match operator_kind(c, char_at(s, p + 1)) {
                    Some((k, n)) => final(self).pos == p + n && (r matches Ok(t) && t.kind == k
                        && t.span == span_at(s, p, old(self).column + n)),
                    None => final(self).pos == p + 1 && (r matches Err(err) && is_lex_error(
                        err,
                        "unexpected character: "@ + seq![c],
                        span_at(s, p, old(self).column + 1),
                    )),
                }
            }),
    {
        proof {
            lemma_line_col_bounds(self.source@, self.pos as int);
        }
        let start_col = self.column;
        let start_line = self.line;
        let ch = self.peek_char();
        let next = self.peek_char_at(1);
        self.advance_char();
        let (kind, width): (TokenKind, usize) = if ch == '+' {
            (TokenKind::Plus, 1)
        } else if ch == '*' {
            (TokenKind::Star, 1)
        } else if ch == '/' {
            (TokenKind::Slash, 1)
        } else if ch == '%' {
            (TokenKind::Percent, 1)
        } else if ch == '(' {
            (TokenKind::LParen, 1)
        } else if ch == ')' {
            (TokenKind::RParen, 1)
        } else if ch == '{' {
            (TokenKind::LBrace, 1)
        } else if ch == '}' {
            (TokenKind::RBrace, 1)
        } else if ch == ',' {
            (TokenKind::Comma, 1)
        } else if ch == '.' {
            (TokenKind::Dot, 1)
        } else if ch == '|' {
            if next == Some('|') {
                (TokenKind::Or, 2)
            } else {
                (TokenKind::Pipe, 1)
            }
        } else if ch == '-' {
            if next == Some('>') {
                (TokenKind::Arrow, 2)
            } else {
                (TokenKind::Minus, 1)
            }
        } else if ch == '=' {
            if next == Some('>') {
                (TokenKind::FatArrow, 2)
            } else if next == Some('=') {
                (TokenKind::EqEq, 2)
            } else {
                (TokenKind::Eq, 1)
            }
        } else if ch == ':' {
            if next == Some('=') {
                (TokenKind::ColonEq, 2)
            } else {
                (TokenKind::Colon, 1)
            }
        } else if ch == '!' {
            if next == Some('=') {
                (TokenKind::Ne, 2)
            } else {
                (TokenKind::Not, 1)
            }
        } else if ch == '<' {
            if next == Some('=') {
                (TokenKind::Le, 2)
            } else if next == Some('-') {
                (TokenKind::LeftArrow, 2)
            } else {
                (TokenKind::Lt, 1)
            }
        } else if ch == '>' {
            if next == Some('=') {
                (TokenKind::Ge, 2)
            } else {
                (TokenKind::Gt, 1)
            }
        } else if ch == '&' && next == Some('&') {
            (TokenKind::And, 2)
        } else if ch == '_' {
            (TokenKind::Underscore, 1)
        } else {
            let mut msg = String::new();
            msg.append("unexpected character: ");
            push_char(&mut msg, ch);
            assert(msg@ =~= "unexpected character: "@ + seq![ch]);
            return Err(
                CompilerError::LexError {
                    msg,
                    span: Span { line: start_line, column: start_col, end_column: start_col + 1 },
                },
            );
        };
        if width == 2 {
            self.advance_char();
        }
        Ok(Token::new(kind, start_line, start_col, start_col + width))
    }
}


impl Lexer {
    /// Reads a string body up to (not past) its closing quote, decoding escapes.
    fn scan_body(&mut self, interp: bool) -> (r: (String, bool))
        requires
            old(self).wf(),
        ensures
            final(self).moved_from(old(self)),
            r.0@ == scan_quoted(old(self).source@, old(self).pos as int, interp).0,
            final(self).pos == scan_quoted(old(self).source@, old(self).pos as int, interp).1,
            r.1 == (final(self).pos < final(self).source@.len()),
    {
        let ghost s = self.source@;
        let ghost start = self.pos as int;
        let mut content = String::new();
        proof {
            lemma_scan_quoted(s, start, interp);
        }
        while !self.is_at_end() && self.peek_char() != '"'
            invariant
                self.moved_from(old(self)),
                s == self.source@,
                start == old(self).pos,
                content@ + scan_quoted(s, self.pos as int, interp).0 == scan_quoted(s, start, interp).0,
                scan_quoted(s, self.pos as int, interp).1 == scan_quoted(s, start, interp).1,
            decreases self.source@.len() - self.pos,
        {
            let ch = self.peek_char();
            let ghost at = self.pos as int;
            let ghost before = content@;
            if ch == '\\' {
                self.advance_char();
                if self.is_at_end() {
                    assert(scan_quoted(s, at, interp).1 == s.len());
                    assert(scan_quoted(s, at, interp).0 =~= seq![]);
                    assert(content@ =~= before);
                    return (content, false);
                }
                let e = self.peek_char();
                if e == 'n' {
                    push_char(&mut content, '\n');
                } else if e == 't' {
                    push_char(&mut content, '\t');
                } else if e == '\\' {
                    push_char(&mut content, '\\');
                } else if e == '"' {
                    push_char(&mut content, '"');
                } else if interp && (e == '{' || e == '}') {
                    push_char(&mut content, e);
                } else {
                    push_char(&mut content, '\\');
                    push_char(&mut content, e);
                }
                assert(content@ =~= before + unescape(e, interp));
                self.advance_char();
                assert(before + scan_quoted(s, at, interp).0 =~= content@ + scan_quoted(
                    s,
                    at + 2,
                    interp,
                ).0);
            } else {
                push_char(&mut content, ch);
                self.advance_char();
                assert(before + scan_quoted(s, at, interp).0 =~= content@ + scan_quoted(
                    s,
                    at + 1,
                    interp,
                ).0);
            }
        }
        assert(scan_quoted(s, self.pos as int, interp).0 =~= seq![]);
        assert(content@ =~= content@ + scan_quoted(s, self.pos as int, interp).0);
        let done = !self.is_at_end();
        (content, done)
    }

    fn lex_string(&mut self) -> (r: LustcResult<Token>)
        requires
            old(self).wf(),
            old(self).pos < old(self).source@.len(),
            old(self).source@[old(self).pos as int] == '"',
        ensures
            final(self).moved_from(old(self)),
            final(self).pos > old(self).pos,
            r matches Ok(tok) ==> span_in_source(tok),
            ({
                let s = old(self).source@;
                let p = old(self).pos as int;
                let (body, stop) = scan_quoted(s, p + 1, false);
                if stop < s.len() {
                    final(self).pos == stop + 1 && (r matches Ok(t) && t.span == span_at(
                        s,
                        p,
                        line_col(s, stop + 1).1,
                    ) && (t.kind matches TokenKind::StringLit(v) && v@ == body))
                } else {
                    final(self).pos == s.len() && (r matches Err(err) && is_lex_error(
                        err,
                        "unterminated string"@,
                        span_at(s, p, line_col(s, s.len() as int).1),
                    ))
                }
            }),
    {
        proof {
            lemma_line_col_bounds(self.source@, self.pos as int);
        }
        let start_line = self.line;
        let start_col = self.column;
        self.advance_char();
        let (s, done) = self.scan_body(false);
        if !done {
            let mut msg = String::new();
            msg.append("unterminated string");
            return Err(
                CompilerError::LexError {
                    msg,
                    span: Span { line: start_line, column: start_col, end_column: self.column },
                },
            );
        }
        self.advance_char();
        Ok(Token::new(TokenKind::StringLit(s), start_line, start_col, self.column))
    }

    /// Reads the rest of an `s!"..."` literal; `s!"` has been consumed and
    /// started at `start_line`, `start_col`.
    fn lex_interpolated_string(&mut self, start_line: usize, start_col: usize) -> (r: LustcResult<
        Token,
    >)
        requires
            old(self).wf(),
        ensures
            final(self).moved_from(old(self)),
            r matches Ok(tok) ==> payload_len(tok) <= old(self).source@.len(),
            start_line >= 1 && start_col >= 1 ==> (r matches Ok(tok) ==> span_in_source(tok)),
            ({
                let s = old(self).source@;
                let p = old(self).pos as int;
                let (body, stop) = scan_quoted(s, p, true);
                if stop < s.len() {
                    final(self).pos == stop + 1 && (r matches Ok(t) && t.span == (Span {
                        line: start_line,
                        column: start_col,
                        end_column: line_col(s, stop + 1).1 as usize,
                    }) && (t.kind matches TokenKind::InterpolatedString(v) && v@ == body))
                } else {
                    final(self).pos == s.len() && (r matches Err(err) && is_lex_error(
                        err,
                        "unterminated interpolated string"@,
                        Span {
                            line: start_line,
                            column: start_col,
                            end_column: line_col(s, s.len() as int).1 as usize,
                        },
                    ))
                }
            }),
    {
        proof {
            lemma_scan_quoted(self.source@, self.pos as int, true);
        }
        let (s, done) = self.scan_body(true);
        if !done {
            let mut msg = String::new();
            msg.append("unterminated interpolated string");
            return Err(
                CompilerError::LexError {
                    msg,
                    span: Span { line: start_line, column: start_col, end_column: self.column },
                },
            );
        }
        self.advance_char();
        Ok(Token::new(TokenKind::InterpolatedString(s), start_line, start_col, self.column))
    }
}


impl Lexer {
    fn lex_ident(&mut self) -> (r: LustcResult<Token>)
        requires
            old(self).wf(),
            old(self).pos < old(self).source@.len(),
            unicode_alphabetic(old(self).source@[old(self).pos as int])
                || old(self).source@[old(self).pos as int] == '_',
        ensures
            final(self).moved_from(old(self)),
            final(self).pos > old(self).pos,
            r matches Ok(t) ==> payload_len(t) <= old(self).source@.len(),
            r matches Ok(t) ==> span_in_source(t),
            ({
                let s = old(self).source@;
                let p = old(self).pos as int;
                let e = run_end(s, p, ident_pred());
                let name = s.subrange(p, e);
                if name == "s"@ && char_at(s, e) == Some('!') && char_at(s, e + 1) == Some('"') {
                    let (body, stop) = scan_quoted(s, e + 2, true);
                    let start = line_col(s, p);
                    if stop < s.len() {
                        final(self).pos == stop + 1 && (r matches Ok(t) && t.span == (Span {
                            line: start.0 as usize,
                            column: start.1 as usize,
                            end_column: line_col(s, stop + 1).1 as usize,
                        }) && (t.kind matches TokenKind::InterpolatedString(v) && v@ == body))
                    } else {
                        final(self).pos == s.len() && (r matches Err(err) && is_lex_error(
                            err,
                            "unterminated interpolated string"@,
                            Span {
                                line: start.0 as usize,
                                column: start.1 as usize,
                                end_column: line_col(s, s.len() as int).1 as usize,
                            },
                        ))
                    }
                } else {
                    &&& final(self).pos == e
                    &&& r matches Ok(t)
                    &&& t.span == span_at(s, p, old(self).column + utf8_len(name))
                    &&& match keyword_kind(name) {
                        Some(k) => t.kind == k,
                        None => t.kind matches TokenKind::Ident(v) && v@ == name,
                    }
                }
            }),
    {
        proof {
            lemma_line_col_bounds(self.source@, self.pos as int);
        }
        let start_col = self.column;
        let start_line = self.line;
        let ghost s = self.source@;
        let ghost p = self.pos as int;
        let mut name: Vec<char> = Vec::new();
        let first_alnum = is_alphanumeric(self.peek_char());
        while !self.is_at_end()
            invariant
                self.moved_from(old(self)),
                s == self.source@,
                p == old(self).pos,
                first_alnum == unicode_alphanumeric(s[p]),
                name@ == s.subrange(p, self.pos as int),
                run_end(s, self.pos as int, ident_pred()) == run_end(s, p, ident_pred()),
            ensures
                self.pos == s.len() || !ident_pred()(s[self.pos as int]),
            decreases self.source@.len() - self.pos,
        {
            let ch = self.peek_char();
            let ghost at = self.pos as int;
            if is_alphanumeric(ch) || ch == '_' {
                assert(ident_pred()(ch));
                name.push(ch);
                self.advance_char();
                assert(name@ =~= s.subrange(p, self.pos as int));
                assert(run_end(s, at, ident_pred()) == run_end(s, at + 1, ident_pred()));
            } else {
                break;
            }
        }
        proof {
            assert(ident_pred()(s[p]));
            crate::text::lemma_run_end(s, p, ident_pred());
            lemma_utf8_len_bound(name@);
        }
        let n = utf8_len_of(&name);
        let end_col = start_col + n;
        if name.len() == 1 && name[0] == 's' && !self.is_at_end() && self.peek_char() == '!'
            && self.peek_char_at(1) == Some('"') {
            assert(name@ =~= "s"@) by {
                reveal_strlit("s");
            }
            self.advance_char();
            self.advance_char();
            return self.lex_interpolated_string(start_line, start_col);
        }
        proof {
            reveal_strlit("s");
            if name@ == "s"@ {
                assert(name@.len() == 1 && name@[0] == 's');
            }
        }
        let kind = if eq_lit(&name, "def") {
            TokenKind::Def
        } else if eq_lit(&name, "let") {
            TokenKind::Let
        } else if eq_lit(&name, "in") {
            TokenKind::In
        } else if eq_lit(&name, "if") {
            TokenKind::If
        } else if eq_lit(&name, "then") {
            TokenKind::Then
        } else if eq_lit(&name, "else") {
            TokenKind::Else
        } else if eq_lit(&name, "match") {
            TokenKind::Match
        } else if eq_lit(&name, "with") {
            TokenKind::With
        } else if eq_lit(&name, "do") {
            TokenKind::Do
        } else if eq_lit(&name, "where") {
            TokenKind::Where
        } else if eq_lit(&name, "inductive") {
            TokenKind::Inductive
        } else if eq_lit(&name, "fun") {
            TokenKind::Fun
        } else if eq_lit(&name, "structure") {
            TokenKind::Structure
        } else if eq_lit(&name, "import") {
            TokenKind::Import
        } else if eq_lit(&name, "open") {
            TokenKind::Open
        } else if eq_lit(&name, "namespace") {
            TokenKind::Namespace
        } else if eq_lit(&name, "end") {
            TokenKind::End
        } else if eq_lit(&name, "true") {
            TokenKind::True
        } else if eq_lit(&name, "false") {
            TokenKind::False
        } else {
            let v = string_from_prefix(&name, name.len());
            assert(name@.take(name@.len() as int) =~= name@);
            TokenKind::Ident(v)
        };
        Ok(Token::new(kind, start_line, start_col, end_col))
    }
}


/// What a token says, with its text as plain characters: the kinds that carry
/// a `String` are given by their characters, every other kind by itself.
pub enum Lexeme {
    Kind(TokenKind),
    Ident(Seq<char>),
    Str(Seq<char>),
    Interp(Seq<char>),
}

pub open spec fn lexeme(k: TokenKind) -> Lexeme {
    match k {
        TokenKind::Ident(v) => Lexeme::Ident(v@),
        TokenKind::StringLit(v) => Lexeme::Str(v@),
        TokenKind::InterpolatedString(v) => Lexeme::Interp(v@),
        _ => Lexeme::Kind(k),
    }
}

/// The lexemes and spans of a token stream.
pub open spec fn lexemes(ts: Seq<Token>) -> Seq<(Lexeme, Span)> {
    Seq::new(ts.len(), |i: int| (lexeme(ts[i].kind), ts[i].span))
}

/// Whether `r` is the token (or the lexing error) that `res` describes.
pub open spec fn token_result_is(
    r: LustcResult<Token>,
    res: Result<(Lexeme, Span), (Seq<char>, Span)>,
) -> bool {
    match res {
        Ok((lx, sp)) => r matches Ok(t) && lexeme(t.kind) == lx && t.span == sp,
        Err((m, sp)) => r matches Err(e) && is_lex_error(e, m, sp),
    }
}

/// The lexer between two tokens: where it reads, the open indentation
/// levels, the layout tokens queued to be handed out (last first), and
/// whether a new line is about to start.
pub struct LexState {
    pub pos: int,
    pub levels: Seq<usize>,
    pub pending: Seq<Token>,
    pub at_line_start: bool,
}

/// The state a fresh lexer starts in.
pub open spec fn start_state() -> LexState {
    LexState { pos: 0, levels: seq![0usize], pending: seq![], at_line_start: true }
}

/// A layout token (or `Eof`) one column wide at position `p`.
pub open spec fn layout_token(kind: TokenKind, s: Seq<char>, p: int) -> Token {
    Token { kind, span: span_at(s, p, line_col(s, p).1 + 1) }
}

/// The levels that stay open when a line is indented by `indent`.
pub open spec fn levels_kept(levels: Seq<usize>, indent: int) -> Seq<usize>
    decreases levels.len(),
{
    if levels.len() > 0 && indent < levels.last() {
        levels_kept(levels.drop_last(), indent)
    } else {
        levels
    }
}

pub open spec fn blank_pred() -> spec_fn(char) -> bool {
    |c: char| c == ' '
}

pub open spec fn space_pred() -> spec_fn(char) -> bool {
    |c: char| is_space(c)
}

pub open spec fn not_newline_pred() -> spec_fn(char) -> bool {
    |c: char| c != '\n'
}

/// The state after the indentation at the start of a line is read: a deeper
/// line opens a level and queues an `Indent`; a shallower one closes the
/// levels above it, one queued `Dedent` each. Blank and comment lines change
/// nothing but the position.
pub open spec fn indent_state(s: Seq<char>, st: LexState) -> LexState {
    let e = run_end(s, st.pos, blank_pred());
    let indent = e - st.pos;
    if e >= s.len() || s[e] == '\n' || (s[e] == '-' && char_at(s, e + 1) == Some('-')) {
        LexState { pos: e, levels: st.levels, pending: st.pending, at_line_start: st.at_line_start }
    } else if indent > st.levels.last() {
        LexState {
            pos: e,
            levels: st.levels.push(indent as usize),
            pending: seq![layout_token(TokenKind::Indent, s, e)],
            at_line_start: st.at_line_start,
        }
    } else {
        let kept = levels_kept(st.levels, indent);
        LexState {
            pos: e,
            levels: kept,
            pending: Seq::new(
                (st.levels.len() - kept.len()) as nat,
                |i: int| layout_token(TokenKind::Dedent, s, e),
            ),
            at_line_start: st.at_line_start,
        }
    }
}

/// The `#eval` directive at `p`, and where it ends.
pub open spec fn lex_hash_at(s: Seq<char>, p: int) -> (Result<(Lexeme, Span), (Seq<char>, Span)>, int) {
    let e = run_end(s, p + 1, alphabetic_pred());
    let word = s.subrange(p + 1, e);
    let span = span_at(s, p, line_col(s, p).1 + 1 + utf8_len(word));
    if word == "eval"@ {
        (Ok((Lexeme::Kind(TokenKind::HashEval), span)), e)
    } else {
        (Err(("unexpected directive: #"@ + word, span)), e)
    }
}

/// The string literal at `p`, and where it ends.
pub open spec fn lex_string_at(s: Seq<char>, p: int) -> (Result<(Lexeme, Span), (Seq<char>, Span)>, int) {
    let (body, stop) = scan_quoted(s, p + 1, false);
    if stop < s.len() {
        (Ok((Lexeme::Str(body), span_at(s, p, line_col(s, stop + 1).1))), stop + 1)
    } else {
        (
            Err(("unterminated string"@, span_at(s, p, line_col(s, s.len() as int).1))),
            s.len() as int,
        )
    }
}

/// The number at `p`, and where it ends.
pub open spec fn lex_number_at(s: Seq<char>, p: int) -> (Result<(Lexeme, Span), (Seq<char>, Span)>, int) {
    let e = run_end(s, p, digit_pred());
    let digits = s.subrange(p, e);
    let span = span_at(s, p, line_col(s, p).1 + (e - p));
    if digits_value(digits) <= u64::MAX {
        (Ok((Lexeme::Kind(TokenKind::IntLit(digits_value(digits) as u64)), span)), e)
    } else {
        (Err(("invalid number: "@ + digits, span)), e)
    }
}

/// The identifier, keyword or `s!"..."` literal at `p`, and where it ends.
pub open spec fn lex_ident_at(s: Seq<char>, p: int) -> (Result<(Lexeme, Span), (Seq<char>, Span)>, int) {
    let e = run_end(s, p, ident_pred());
    let name = s.subrange(p, e);
    let start = line_col(s, p);
    if name == "s"@ && char_at(s, e) == Some('!') && char_at(s, e + 1) == Some('"') {
        let (body, stop) = scan_quoted(s, e + 2, true);
        if stop < s.len() {
            (
                Ok(
                    (
                        Lexeme::Interp(body),
                        Span {
                            line: start.0 as usize,
                            column: start.1 as usize,
                            end_column: line_col(s, stop + 1).1 as usize,
                        },
                    ),
                ),
                stop + 1,
            )
        } else {
            (
                Err(
                    (
                        "unterminated interpolated string"@,
                        Span {
                            line: start.0 as usize,
                            column: start.1 as usize,
                            end_column: line_col(s, s.len() as int).1 as usize,
                        },
                    ),
                ),
                s.len() as int,
            )
        }
    } else {
        let span = span_at(s, p, start.1 + utf8_len(name));
        match keyword_kind(name) {
            Some(k) => (Ok((Lexeme::Kind(k), span)), e),
            None => (Ok((Lexeme::Ident(name), span)), e),
        }
    }
}

/// The operator or delimiter at `p`, and where it ends.
pub open spec fn lex_operator_at(s: Seq<char>, p: int) -> (Result<(Lexeme, Span), (Seq<char>, Span)>, int) {
    let c = s[p];
    match operator_kind(c, char_at(s, p + 1)) {
        Some((k, n)) => (Ok((Lexeme::Kind(k), span_at(s, p, line_col(s, p).1 + n))), p + n),
        None => (
            Err(("unexpected character: "@ + seq![c], span_at(s, p, line_col(s, p).1 + 1))),
            p + 1,
        ),
    }
}

/// The token that starts at `p` (which holds neither a space, a line break
/// nor the start of a comment), and where it ends.
pub open spec fn lex_token_at(s: Seq<char>, p: int) -> (Result<(Lexeme, Span), (Seq<char>, Span)>, int) {
    let c = s[p];
    let one = span_at(s, p, line_col(s, p).1 + 1);
    if c == '#' {
        lex_hash_at(s, p)
    } else if c == '"' {
        lex_string_at(s, p)
    } else if is_digit(c) {
        lex_number_at(s, p)
    } else if unicode_alphabetic(c) || c == '_' {
        lex_ident_at(s, p)
    } else if c == '→' {
        (Ok((Lexeme::Kind(TokenKind::Arrow), one)), p + 1)
    } else if c == '←' {
        (Ok((Lexeme::Kind(TokenKind::LeftArrow), one)), p + 1)
    } else if c == '×' {
        (Ok((Lexeme::Kind(TokenKind::Times), one)), p + 1)
    } else {
        lex_operator_at(s, p)
    }
}

/// The next token read in the middle of a line (nothing queued): spaces and
/// comments are skipped; at the end of the source the open levels are closed
/// by `Dedent`s before the `Eof`.
pub open spec fn scan_token(s: Seq<char>, st: LexState) -> Result<
    (Lexeme, Span, LexState),
    (Seq<char>, Span),
>
    decreases s.len() - st.pos,
    when 0 <= st.pos <= s.len()
{
    proof {
        crate::text::lemma_run_end(s, st.pos, space_pred());
    }
    let p = run_end(s, st.pos, space_pred());
    if p >= s.len() {
        if st.levels.len() > 1 {
            let d = layout_token(TokenKind::Dedent, s, p);
            Ok(
                (
                    Lexeme::Kind(TokenKind::Dedent),
                    d.span,
                    LexState {
                        pos: p,
                        levels: st.levels.take(1),
                        pending: Seq::new((st.levels.len() - 2) as nat, |i: int| d),
                        at_line_start: st.at_line_start,
                    },
                ),
            )
        } else {
            Ok(
                (
                    Lexeme::Kind(TokenKind::Eof),
                    layout_token(TokenKind::Eof, s, p).span,
                    LexState {
                        pos: p,
                        levels: st.levels,
                        pending: st.pending,
                        at_line_start: st.at_line_start,
                    },
                ),
            )
        }
    } else if s[p] == '\n' {
        Ok(
            (
                Lexeme::Kind(TokenKind::Newline),
                layout_token(TokenKind::Newline, s, p).span,
                LexState { pos: p + 1, levels: st.levels, pending: st.pending, at_line_start: true },
            ),
        )
    } else if s[p] == '-' && char_at(s, p + 1) == Some('-') {
        proof {
            crate::text::lemma_run_end(s, p + 2, not_newline_pred());
            assert(not_newline_pred()(s[p]) && not_newline_pred()(s[p + 1]));
            assert(run_end(s, p + 1, not_newline_pred()) == run_end(s, p + 2, not_newline_pred()));
        }
        let e = run_end(s, p, not_newline_pred());
        scan_token(
            s,
            LexState { pos: e, levels: st.levels, pending: st.pending, at_line_start: st.at_line_start },
        )
    } else if s[p] == '/' && char_at(s, p + 1) == Some('-') {
        proof {
            lemma_block_comment_end(s, p + 2, 1);
        }
        match block_comment_end(s, p + 2, 1) {
            Some(e) => scan_token(
                s,
                LexState {
                    pos: e,
                    levels: st.levels,
                    pending: st.pending,
                    at_line_start: st.at_line_start,
                },
            ),
            None => Err(("unterminated block comment"@, span_at(s, p, line_col(s, p).1 + 2))),
        }
    } else {
        let (res, e) = lex_token_at(s, p);
        match res {
            Ok((lx, sp)) => Ok(
                (
                    lx,
                    sp,
                    LexState {
                        pos: e,
                        levels: st.levels,
                        pending: st.pending,
                        at_line_start: st.at_line_start,
                    },
                ),
            ),
            Err(err) => Err(err),
        }
    }
}

/// One step of the lexer: the token it hands out in state `st` and the state
/// after it, or the error it stops at. Queued layout tokens go first; a new
/// line first has its indentation read.
pub open spec fn lex_step(s: Seq<char>, st: LexState) -> Result<
    (Lexeme, Span, LexState),
    (Seq<char>, Span),
> {
    if st.pending.len() > 0 {
        Ok(
            (
                lexeme(st.pending.last().kind),
                st.pending.last().span,
                LexState {
                    pos: st.pos,
                    levels: st.levels,
                    pending: st.pending.drop_last(),
                    at_line_start: st.at_line_start,
                },
            ),
        )
    } else if st.at_line_start {
        let st1 = indent_state(
            s,
            LexState { pos: st.pos, levels: st.levels, pending: st.pending, at_line_start: false },
        );
        if st1.pending.len() > 0 {
            Ok(
                (
                    lexeme(st1.pending.last().kind),
                    st1.pending.last().span,
                    LexState {
                        pos: st1.pos,
                        levels: st1.levels,
                        pending: st1.pending.drop_last(),
                        at_line_start: false,
                    },
                ),
            )
        } else {
            scan_token(s, st1)
        }
    } else {
        scan_token(s, st)
    }
}

/// The first `n` steps from `st`: the lexemes read and the state reached, or
/// the error met on the way.
pub open spec fn lex_run(s: Seq<char>, st: LexState, n: nat) -> Result<
    (Seq<(Lexeme, Span)>, LexState),
    (Seq<char>, Span),
>
    decreases n,
{
    if n == 0 {
        Ok((seq![], st))
    } else {
        match lex_run(s, st, (n - 1) as nat) {
            Ok((ls, st1)) => match lex_step(s, st1) {
                Ok((lx, sp, st2)) => Ok((ls.push((lx, sp)), st2)),
                Err(err) => Err(err),
            },
            Err(err) => Err(err),
        }
    }
}

/// Whether lexing from `st` reads `n` tokens, none of them `Eof`, and then
/// stops at the error `e`.
pub open spec fn lex_fails_after(s: Seq<char>, st: LexState, n: nat, e: CompilerError) -> bool {
    &&& lex_run(s, st, n) matches Ok((ls, _))
    &&& forall|i: int| 0 <= i < ls.len() ==> (#[trigger] ls[i]).0 != Lexeme::Kind(TokenKind::Eof)
    &&& lex_run(s, st, n + 1) matches Err((m, sp))
    &&& is_lex_error(e, m, sp)
}

/// Whether lexing moved on: the position advanced, or the line-start step was
/// taken, or an indentation level or a pending token was used up.
pub open spec fn progressed(
    old_pos: int,
    old_start: bool,
    old_levels: int,
    old_pending: int,
    pos: int,
    start: bool,
    levels: int,
    pending: int,
) -> bool {
    ||| pos > old_pos
    ||| pos == old_pos && old_start && !start
    ||| pos == old_pos && old_start == start && (levels < old_levels || (levels == old_levels
        && pending < old_pending))
}

impl Lexer {
    pub closed spec fn measure_after(&self, old: &Lexer) -> bool {
        progressed(
            old.pos as int,
            old.at_line_start,
            old.indent_stack@.len() as int,
            old.pending_tokens@.len() as int,
            self.pos as int,
            self.at_line_start,
            self.indent_stack@.len() as int,
            self.pending_tokens@.len() as int,
        )
    }

    /// Reads the indentation of a new line and queues the `Indent` or the
    /// `Dedent`s it calls for.
    fn handle_indentation(&mut self)
        requires
            old(self).wf(),
            old(self).pending_tokens@.len() == 0,
        ensures
            final(self).wf(),
            final(self).source@ == old(self).source@,
            final(self).at_line_start == old(self).at_line_start,
            final(self).pos >= old(self).pos,
            final(self).open_levels() == old(self).open_levels(),
            final(self).pos == old(self).pos ==> final(self).indent_stack@.len()
                <= old(self).indent_stack@.len(),
            final(self).state() == indent_state(old(self).source@, old(self).state()),
    {
        let mut indent: usize = 0;
        let ghost s = self.source@;
        while !self.is_at_end() && self.peek_char() == ' '
            invariant
                self.moved_from(old(self)),
                s == self.source@,
                indent == self.pos - old(self).pos,
                forall|i: int| old(self).pos <= i < self.pos ==> blank_pred()(#[trigger] s[i]),
            decreases self.source@.len() - self.pos,
        {
            indent += 1;
            self.advance_char();
        }
        proof {
            crate::text::lemma_run_end_at(s, old(self).pos as int, self.pos as int, blank_pred());
        }
        let ghost e = self.pos as int;
        if self.is_at_end() || self.peek_char() == '\n' {
            return ;
        }
        if self.peek_char() == '-' && self.peek_char_at(1) == Some('-') {
            return ;
        }
        proof {
            lemma_line_col_bounds(self.source@, self.pos as int);
        }
        let current_indent = self.indent_stack[self.indent_stack.len() - 1];
        if indent > current_indent {
            self.indent_stack.push(indent);
            self.pending_tokens.push(
                Token::new(TokenKind::Indent, self.line, self.column, self.column + 1),
            );
            assert(self.pending_tokens@.drop_last() =~= Seq::<Token>::empty());
            assert(layout_balance(Seq::<Token>::empty()) == 0);
            assert(layout_balance(self.pending_tokens@) == 1);
            assert(self.pending_tokens@ =~= seq![layout_token(TokenKind::Indent, s, e)]);
        } else {
            let ghost levels0 = self.indent_stack@;
            let ghost d = layout_token(TokenKind::Dedent, s, e);
            assert(layout_balance(self.pending_tokens@) == 0);
            assert(self.pending_tokens@ =~= Seq::new(0, |i: int| d));
            while indent < self.indent_stack[self.indent_stack.len() - 1]
                invariant
                    self.wf(),
                    s == self.source@,
                    self.source@ == old(self).source@,
                    self.pos == e,
                    self.pos >= old(self).pos,
                    self.at_line_start == old(self).at_line_start,
                    self.indent_stack@.len() <= levels0.len(),
                    levels0.len() == old(self).indent_stack@.len(),
                    levels0 == old(self).indent_stack@,
                    d == layout_token(TokenKind::Dedent, s, e),
                    levels_kept(self.indent_stack@, indent as int) == levels_kept(levels0, indent as int),
                    self.pending_tokens@ == Seq::new(
                        (levels0.len() - self.indent_stack@.len()) as nat,
                        |i: int| d,
                    ),
                    forall|i: int| 0 <= i < self.pending_tokens@.len()
                        ==> (#[trigger] self.pending_tokens@[i]).kind is Dedent,
                    self.open_levels() == old(self).open_levels(),
                decreases self.indent_stack@.len(),
            {
                proof {
                    lemma_line_col_bounds(self.source@, self.pos as int);
                    if self.indent_stack@.len() == 1 {
                        assert(self.indent_stack@[0] == 0);
                    }
                }
                let ghost pend0 = self.pending_tokens@;
                let ghost stack0 = self.indent_stack@;
                self.indent_stack.pop();
                self.pending_tokens.push(
                    Token::new(TokenKind::Dedent, self.line, self.column, self.column + 1),
                );
                assert(self.pending_tokens@.drop_last() =~= pend0);
                assert(self.indent_stack@ =~= stack0.drop_last());
                assert(self.pending_tokens@ =~= Seq::new(
                    (levels0.len() - self.indent_stack@.len()) as nat,
                    |i: int| d,
                ));
            }
        }
    }

    /// Reads the next token: exactly the step `lex_step` describes.
    #[verifier::spinoff_prover]
    #[verifier::rlimit(40)]
    fn next_token(&mut self) -> (r: LustcResult<Token>)
        requires
            old(self).wf(),
        ensures
            final(self).wf(),
            final(self).source@ == old(self).source@,
            r matches Ok(t) ==> {
                &&& token_delta(t) == final(self).open_levels() - old(self).open_levels()
                &&& span_in_source(t)
                &&& payload_len(t) <= old(self).source@.len()
                &&& t.kind is Eof ==> final(self).pos == final(self).source@.len()
                    && final(self).pending_tokens@.len() == 0 && final(self).indent_stack@.len()
                    == 1
                &&& !(t.kind is Eof) ==> final(self).measure_after(old(self))
            },
            r matches Err(e) ==> e is LexError,
            match lex_step(old(self).source@, old(self).state()) {
                Ok((lx, sp, st)) => r matches Ok(t) && lexeme(t.kind) == lx && t.span == sp
                    && final(self).state() == st,
                Err((m, sp)) => r matches Err(e) && is_lex_error(e, m, sp),
            },
        decreases old(self).source@.len() - old(self).pos,
    {
        let ghost s = self.source@;
        if self.pending_tokens.len() > 0 {
            let ghost pend0 = self.pending_tokens@;
            let tok = self.pending_tokens.pop().unwrap();
            assert(self.pending_tokens@ =~= pend0.drop_last());
            assert(span_in_source(pend0[pend0.len() - 1]));
            return Ok(tok);
        }
        let ghost l0_pos = self.pos;
        if self.at_line_start {
            self.at_line_start = false;
            self.handle_indentation();
            if self.pending_tokens.len() > 0 {
                let ghost pend0 = self.pending_tokens@;
                let tok = self.pending_tokens.pop().unwrap();
                assert(self.pending_tokens@ =~= pend0.drop_last());
                assert(span_in_source(pend0[pend0.len() - 1]));
                return Ok(tok);
            }
        }
        let ghost st1 = self.state();
        assert(lex_step(s, old(self).state()) == scan_token(s, st1));
        assert(st1.pending.len() == 0 && !st1.at_line_start);
        self.skip_spaces();
        proof {
            lemma_line_col_bounds(self.source@, self.pos as int);
        }
        let ghost p = self.pos as int;
        if self.is_at_end() {
            let ghost lv = self.indent_stack@.len();
            let ghost lv0 = self.indent_stack@;
            let ghost d = layout_token(TokenKind::Dedent, s, p);
            assert(self.pending_tokens@.len() == 0);
            assert(self.pending_tokens@ =~= Seq::new(0, |i: int| d));
            assert(lv0.take(lv0.len() as int) =~= lv0);
            while self.indent_stack.len() > 1
                invariant
                    self.indent_stack@.len() + self.pending_tokens@.len() == lv,
                    self.wf(),
                    self.source@ == old(self).source@,
                    s == self.source@,
                    self.pos == self.source@.len(),
                    self.pos == p,
                    !self.at_line_start,
                    self.pos >= old(self).pos,
                    self.pos == old(self).pos ==> self.indent_stack@.len() <= old(self).indent_stack@.len(),
                    forall|i: int| 0 <= i < self.pending_tokens@.len()
                        ==> (#[trigger] self.pending_tokens@[i]).kind is Dedent,
                    self.open_levels() == old(self).open_levels(),
                    lv0.len() == lv,
                    lv0 == st1.levels,
                    d == layout_token(TokenKind::Dedent, s, p),
                    self.indent_stack@ == lv0.take(self.indent_stack@.len() as int),
                    self.pending_tokens@ == Seq::new((lv - self.indent_stack@.len()) as nat, |i: int| d),
                decreases self.indent_stack@.len(),
            {
                proof {
                    lemma_line_col_bounds(self.source@, self.pos as int);
                }
                let ghost pend0 = self.pending_tokens@;
                let ghost stack0 = self.indent_stack@;
                self.indent_stack.pop();
                self.pending_tokens.push(
                    Token::new(TokenKind::Dedent, self.line, self.column, self.column + 1),
                );
                assert(self.pending_tokens@.drop_last() =~= pend0);
                assert(self.indent_stack@ =~= lv0.take(self.indent_stack@.len() as int));
                assert(self.pending_tokens@ =~= Seq::new((lv - self.indent_stack@.len()) as nat, |i: int| d));
            }
            if self.pending_tokens.len() > 0 {
                let ghost pend0 = self.pending_tokens@;
                let tok = self.pending_tokens.pop().unwrap();
                assert(self.pending_tokens@ =~= pend0.drop_last());
                assert(span_in_source(pend0[pend0.len() - 1]));
                assert(self.pending_tokens@ =~= Seq::new((lv - 2) as nat, |i: int| d));
                return Ok(tok);
            }
            assert(layout_balance(self.pending_tokens@) == 0);
            assert(self.pending_tokens@ =~= st1.pending);
            return Ok(Token::new(TokenKind::Eof, self.line, self.column, self.column + 1));
        }
        let ch = self.peek_char();
        if ch == '\n' {
            let tok = Token::new(TokenKind::Newline, self.line, self.column, self.column + 1);
            self.advance_char();
            self.at_line_start = true;
            return Ok(tok);
        }
        if ch == '-' && self.peek_char_at(1) == Some('-') {
            self.skip_line_comment();
            return self.next_token();
        }
        if ch == '/' && self.peek_char_at(1) == Some('-') {
            match self.skip_block_comment() {
                Ok(()) => {},
                Err(e) => {
                    return Err(e);
                },
            }
            proof {
                lemma_block_comment_end(self.source@, old(self).pos + 2, 1);
            }
            return self.next_token();
        }
        if ch == '#' {
            return self.lex_hash();
        }
        if ch == '"' {
            return self.lex_string();
        }
        if '0' <= ch && ch <= '9' {
            return self.lex_number();
        }
        if is_alphabetic(ch) || ch == '_' {
            return self.lex_ident();
        }
        if ch == '→' {
            let tok = Token::new(TokenKind::Arrow, self.line, self.column, self.column + 1);
            self.advance_char();
            return Ok(tok);
        }
        if ch == '←' {
            let tok = Token::new(TokenKind::LeftArrow, self.line, self.column, self.column + 1);
            self.advance_char();
            return Ok(tok);
        }
        if ch == '×' {
            let tok = Token::new(TokenKind::Times, self.line, self.column, self.column + 1);
            self.advance_char();
            return Ok(tok);
        }
        self.lex_operator()
    }
}


/// The length of the text an interpolated-string token carries (0 for any
/// other token): the parser lexes that text again.
pub open spec fn payload_len(t: Token) -> nat {
    match t.kind {
        TokenKind::InterpolatedString(c) => c@.len(),
        _ => 0,
    }
}

/// Whether `ts` is a complete token stream: it ends in the one `Eof`.
pub open spec fn ends_with_eof(ts: Seq<Token>) -> bool {
    &&& ts.len() >= 1
    &&& ts.last().kind is Eof
    &&& forall|i: int| 0 <= i < ts.len() - 1 ==> !((#[trigger] ts[i]).kind is Eof)
}

impl Lexer {
    /// Reads the whole source into tokens.
    ///
    /// The tokens are exactly those that `lex_step`, taken again and again
    /// from where the lexer stands, hands out up to and including the first
    /// `Eof`; an error is the one the first failing step meets, after tokens
    /// none of which was `Eof`.
    ///
    /// On success the stream ends in its only `Eof`; every token has a line and
    /// column of at least 1; and the layout tokens nest: counting from the
    /// levels still open before the call, no prefix closes more levels than
    /// are open, and the whole stream closes all of them. For a fresh lexer
    /// (no open levels) that is: `Indent`s and `Dedent`s balance.
    pub fn tokenize(&mut self) -> (r: LustcResult<Vec<Token>>)
        requires
            old(self).wf(),
        ensures
            final(self).wf(),
            r matches Ok(ts) ==> {
                &&& ends_with_eof(ts@)
                &&& forall|i: int| 0 <= i < ts@.len() ==> span_in_source(#[trigger] ts@[i])
                &&& forall|i: int| 0 <= i < ts@.len() ==> payload_len(#[trigger] ts@[i]) <= old(self).source().len()
                &&& forall|k: int|
                    0 <= k <= ts@.len() ==> layout_balance(#[trigger] ts@.take(k)) + old(
                        self,
                    ).open_levels() >= 0
                &&& layout_balance(ts@) + old(self).open_levels() == 0
            },
            r matches Err(e) ==> e is LexError,
            r matches Ok(ts) ==> lex_run(old(self).source(), old(self).state(), ts@.len())
                == Ok::<_, (Seq<char>, Span)>((lexemes(ts@), final(self).state())),
            r matches Err(e) ==> exists|n: nat|
                lex_fails_after(old(self).source(), old(self).state(), n, e),
    {
        let mut tokens: Vec<Token> = Vec::new();
        let ghost open0 = self.open_levels();
        let ghost s = self.source@;
        let ghost st0 = self.state();
        proof {
            self.lemma_open_levels_nonneg();
            assert(tokens@.take(0) =~= Seq::<Token>::empty());
            assert(lexemes(tokens@) =~= seq![]);
        }
        loop
            invariant_except_break
                forall|i: int| 0 <= i < tokens@.len() ==> !((#[trigger] tokens@[i]).kind is Eof),
            invariant
                self.wf(),
                s == old(self).source@,
                st0 == old(self).state(),
                lex_run(s, st0, tokens@.len() as nat) == Ok::<_, (Seq<char>, Span)>((lexemes(tokens@), self.state())),
                self.source@ == old(self).source@,
                open0 == old(self).open_levels(),
                layout_balance(tokens@) + open0 == self.open_levels(),
                forall|i: int| 0 <= i < tokens@.len() ==> span_in_source(#[trigger] tokens@[i]),
                forall|i: int| 0 <= i < tokens@.len() ==> payload_len(#[trigger] tokens@[i]) <= old(self).source@.len(),
                forall|k: int|
                    0 <= k <= tokens@.len() ==> layout_balance(#[trigger] tokens@.take(k)) + open0
                        >= 0,
            ensures
                forall|i: int| 0 <= i < tokens@.len() ==> payload_len(#[trigger] tokens@[i]) <= old(self).source@.len(),
                ends_with_eof(tokens@),
                forall|i: int| 0 <= i < tokens@.len() ==> span_in_source(#[trigger] tokens@[i]),
                forall|k: int|
                    0 <= k <= tokens@.len() ==> layout_balance(#[trigger] tokens@.take(k)) + open0
                        >= 0,
                layout_balance(tokens@) + open0 == 0,
            decreases
                self.source@.len() - self.pos,
                if self.at_line_start {
                    1int
                } else {
                    0int
                },
                self.indent_stack@.len(),
                self.pending_tokens@.len(),
        {
            let ghost before = tokens@;
            let ghost stb = self.state();
            let tok = match self.next_token() {
                Ok(t) => t,
                Err(e) => {
                    proof {
                        let n = tokens@.len() as nat;
                        assert forall|i: int| 0 <= i < lexemes(tokens@).len() implies (
                        #[trigger] lexemes(tokens@)[i]).0 != Lexeme::Kind(TokenKind::Eof) by {
                            assert(!(tokens@[i].kind is Eof));
                        }
                        assert(lex_fails_after(s, st0, n, e));
                    }
                    return Err(e);
                },
            };
            let is_eof = match tok.kind {
                TokenKind::Eof => true,
                _ => false,
            };
            tokens.push(tok);
            proof {
                assert(tokens@.drop_last() =~= before);
                assert(lexemes(tokens@) =~= lexemes(before).push((lexeme(tok.kind), tok.span)));
                self.lemma_open_levels_nonneg();
                assert forall|k: int| 0 <= k <= tokens@.len() implies layout_balance(
                    #[trigger] tokens@.take(k),
                ) + open0 >= 0 by {
                    if k < tokens@.len() {
                        assert(tokens@.take(k) =~= before.take(k));
                    } else {
                        assert(tokens@.take(k) =~= tokens@);
                    }
                }
            }
            if is_eof {
                proof {
                    assert(self.pending_tokens@ =~= Seq::<Token>::empty());
                    assert(layout_balance(self.pending_tokens@) == 0);
                }
                break;
            }
        }
        Ok(tokens)
    }
}

} // verus!

verus! {

/// Whether lexing `s` from the start reads `n` tokens, the last its only `Eof`.
pub open spec fn lex_completes(s: Seq<char>, n: nat) -> bool {
    &&& lex_run(s, start_state(), n) matches Ok((ls, _))
    &&& n >= 1
    &&& ls[n - 1].0 == Lexeme::Kind(TokenKind::Eof)
    &&& forall|i: int| 0 <= i < n - 1 ==> (#[trigger] ls[i]).0 != Lexeme::Kind(TokenKind::Eof)
}

/// Whether lexing `s` from the start reads `n` tokens, none `Eof`, and then
/// fails.
pub open spec fn lex_stops(s: Seq<char>, n: nat) -> bool {
    &&& lex_run(s, start_state(), n) matches Ok((ls, _))
    &&& forall|i: int| 0 <= i < ls.len() ==> (#[trigger] ls[i]).0 != Lexeme::Kind(TokenKind::Eof)
    &&& lex_run(s, start_state(), n + 1) is Err
}

/// What lexing `s` from the start gives: its lexemes up to the `Eof`, or the
/// error it stops at.
#[verifier::opaque]
pub open spec fn lexed(s: Seq<char>) -> Result<Seq<(Lexeme, Span)>, (Seq<char>, Span)> {
    if exists|n: nat| lex_completes(s, n) {
        let n = choose|n: nat| lex_completes(s, n);
        Ok(lex_run(s, start_state(), n)->Ok_0.0)
    } else {
        let n = choose|n: nat| lex_stops(s, n);
        Err(lex_run(s, start_state(), n + 1)->Err_0)
    }
}

/// A run that reaches `n` tokens passed through every shorter run, and reads
/// one lexeme per step.
pub proof fn lemma_lex_run_prefix(s: Seq<char>, st: LexState, m: nat, n: nat)
    requires
        m <= n,
        lex_run(s, st, n) is Ok,
    ensures
        lex_run(s, st, n)->Ok_0.0.len() == n,
        lex_run(s, st, m) is Ok,
        lex_run(s, st, m)->Ok_0.0 == lex_run(s, st, n)->Ok_0.0.take(m as int),
    decreases n,
{
    if n > 0 {
        assert(lex_run(s, st, (n - 1) as nat) is Ok);
        lemma_lex_run_prefix(s, st, (n - 1) as nat, (n - 1) as nat);
        if m < n {
            lemma_lex_run_prefix(s, st, m, (n - 1) as nat);
            assert(lex_run(s, st, n)->Ok_0.0.take(m as int) =~= lex_run(
                s,
                st,
                (n - 1) as nat,
            )->Ok_0.0.take(m as int));
        } else {
            assert(lex_run(s, st, n)->Ok_0.0.take(m as int) =~= lex_run(s, st, n)->Ok_0.0);
        }
    } else {
        assert(lex_run(s, st, n)->Ok_0.0.take(m as int) =~= lex_run(s, st, n)->Ok_0.0);
    }
}

/// Once a run fails, every longer run fails with the same error.
pub proof fn lemma_lex_run_fails_on(s: Seq<char>, st: LexState, m: nat, n: nat)
    requires
        m <= n,
        lex_run(s, st, m) is Err,
    ensures
        lex_run(s, st, n) == lex_run(s, st, m),
    decreases n - m,
{
    if m < n {
        lemma_lex_run_fails_on(s, st, m, (n - 1) as nat);
    }
}

/// What `tokenize` gives on a fresh lexer is what `lexed` says.
pub proof fn lemma_tokenize_lexed(s: Seq<char>, r: LustcResult<Vec<Token>>)
    requires
        r matches Ok(ts) ==> lex_run(s, start_state(), ts@.len()) matches Ok((ls, _)) && ls
            == lexemes(ts@) && ends_with_eof(ts@),
        r matches Err(e) ==> exists|n: nat| lex_fails_after(s, start_state(), n, e),
    ensures
        r matches Ok(ts) ==> lexed(s) == Ok::<_, (Seq<char>, Span)>(lexemes(ts@)),
        r matches Err(e) ==> lexed(s) matches Err((m, sp)) && is_lex_error(e, m, sp),
{
    reveal(lexed);
    match r {
        Ok(ts) => {
            let n = ts@.len();
            assert(lex_completes(s, n)) by {
                assert(lexemes(ts@)[n - 1].0 == lexeme(ts@[n - 1].kind));
                assert forall|i: int| 0 <= i < n - 1 implies (#[trigger] lexemes(ts@)[i]).0
                    != Lexeme::Kind(TokenKind::Eof) by {
                    assert(!(ts@[i].kind is Eof));
                }
            }
            let m = choose|m: nat| lex_completes(s, m);
            assert(m == n) by {
                if m < n {
                    lemma_lex_run_prefix(s, start_state(), m, n);
                    assert(lex_run(s, start_state(), m)->Ok_0.0[m - 1] == lexemes(ts@)[m - 1]);
                } else if m > n {
                    lemma_lex_run_prefix(s, start_state(), n, m);
                    assert(lex_run(s, start_state(), m)->Ok_0.0[n - 1] == lexemes(ts@)[n - 1]);
                }
            }
        },
        Err(e) => {
            let n0 = choose|n: nat| lex_fails_after(s, start_state(), n, e);
            assert(lex_stops(s, n0));
            assert(!exists|n: nat| lex_completes(s, n)) by {
                if exists|n: nat| lex_completes(s, n) {
                    let n = choose|n: nat| lex_completes(s, n);
                    if n <= n0 {
                        lemma_lex_run_prefix(s, start_state(), n, n0);
                        assert(lex_run(s, start_state(), n0)->Ok_0.0[n - 1] == lex_run(
                            s,
                            start_state(),
                            n,
                        )->Ok_0.0[n - 1]);
                    } else {
                        lemma_lex_run_fails_on(s, start_state(), n0 + 1, n);
                    }
                }
            }
            let m = choose|m: nat| lex_stops(s, m);
            assert(m == n0) by {
                if m < n0 {
                    lemma_lex_run_fails_on(s, start_state(), m + 1, n0);
                } else if m > n0 {
                    lemma_lex_run_fails_on(s, start_state(), n0 + 1, m);
                }
            }
        },
    }
}

/// Each operator token is read from one spelling only: two characters (with
/// what follows them) that give the same token kind are the same character,
/// the token spans as many characters from both, and a two-character token is
/// the same pair. So a lone `>` and `>=` never give the same token, nor `!=`
/// and `==`, nor `%` and `/`.
pub proof fn law_operator_spelling_unique(c1: char, n1: Option<char>, c2: char, n2: Option<char>)
    requires
        operator_kind(c1, n1) is Some,
        operator_kind(c2, n2) is Some,
        operator_kind(c1, n1).unwrap().0 == operator_kind(c2, n2).unwrap().0,
    ensures
        c1 == c2,
        operator_kind(c1, n1).unwrap().1 == operator_kind(c2, n2).unwrap().1,
        operator_kind(c1, n1).unwrap().1 == 2 ==> n1 == n2,
{
}

/// A one-character operator is read as the token of that character alone
/// wherever the next character does not extend it: `>` as `Gt`, `<` as `Lt`,
/// `=` as `Eq`, `!` as `Not`, `|` as `Pipe`, `-` as `Minus`, `:` as `Colon`;
/// only `>=`, `<=`, `==`, `!=`, `||`, `->`, `<-`, `=>`, `:=` and `&&` span two.
pub proof fn law_lone_operator_char(c: char, n1: Option<char>, n2: Option<char>)
    requires
        operator_kind(c, n1) is Some,
        operator_kind(c, n1).unwrap().1 == 1,
        n2 != Some('='),
        n2 != Some('>'),
        n2 != Some('-'),
        n2 != Some('|'),
    ensures
        operator_kind(c, n2) == operator_kind(c, n1),
        c == '>' ==> operator_kind(c, n1) == Some((TokenKind::Gt, 1int)),
        c == '<' ==> operator_kind(c, n1) == Some((TokenKind::Lt, 1int)),
        c == '=' ==> operator_kind(c, n1) == Some((TokenKind::Eq, 1int)),
        c == '!' ==> operator_kind(c, n1) == Some((TokenKind::Not, 1int)),
{
}

} // verus!
