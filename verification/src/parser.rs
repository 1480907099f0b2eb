//! The parser: tokens to declarations, by recursive descent with precedence
//! climbing for binary operators, recovering after an error at the next
//! declaration so that several errors are reported at once. Each parsing
//! function gives exactly what the grammar of `grammar.rs` gives on the
//! lexemes of its tokens: the tree with the position after it, or the error
//! with the position where it stopped.

use vstd::prelude::*;

use crate::ast::{
    BinOp, Constructor, Decl, DoStatement, Expr, MatchArm, ModulePath, Pattern, StringInterpPart, Type,
    UnaryOp,
};
use crate::error::{CompilerError, LustcResult, Span};
use crate::ast::{
    arms_model, exprs_model, opt_type_model, parts_model, patterns_model, stmts_model, type_model,
    decls_model, expr_model, typed_names_model, types_model, views, DeclModel, ExprModel, PatternModel,
};
use crate::grammar::{
    error_at, expect_at, ident_at, next, product_rest, resync, skip_layout, skip_line_breaks,
    type_app_at, type_app_rest, type_at, type_atom_at, type_product_at, type_start, ParseFailure,
    dotted_rest, paren_pattern_at, pattern_arg_start, pattern_args_rest, pattern_at,
    pattern_atom_at, tuple_pattern_rest, add_at, add_rest, additive_op, and_at, and_rest, app_arg_start,
    app_at, app_rest, arms_rest, atom_at, block_end, comparison_at, do_at, expr_at, hole_end,
    hole_at, if_at, interp_rest, paren_expr_at, var_at, lambda_body_at, lambda_at, lambda_params_rest, let_at, match_at, mul_at,
    mul_rest, multiplicative_op, block_close, ctor_fields_rest, ctors_rest, decl_at, inductive_at,
    path_at, path_rest, struct_fields_rest, structure_at, case_patterns_rest, cases_rest, def_at,
    def_params_rest, where_bindings_rest, where_rest, wrap_lets, namespace_at, namespace_rest,
    program_at, program_rest, or_at, or_rest, stmts_rest, tuple_rest, unary_at, var_dotted_rest,
};
use crate::lexer::{lexed, lexeme, lexemes, payload_len, Lexeme, Lexer};
use crate::text::{copy_string, is_uppercase, push_char, str_is};
use crate::token::{is_plain_kind, kind_debug, kind_tag, push_kind_debug, tag_of, Token, TokenKind};

verus! {

/// Tokens that start a declaration (where recovery after an error resumes).
pub open spec fn is_decl_start_kind(k: TokenKind) -> bool {
    k is Def || k is Inductive || k is Structure || k is HashEval || k is Import || k is Open
        || k is Namespace
}

/// Layout tokens that separate lines and blocks.
pub open spec fn is_layout_kind(k: TokenKind) -> bool {
    k is Newline || k is Indent || k is Dedent
}

/// Identifiers that are keywords of the expression grammar.
pub open spec fn is_expr_keyword(s: Seq<char>) -> bool {
    s == "if"@ || s == "then"@ || s == "else"@ || s == "match"@ || s == "with"@ || s == "do"@
        || s == "let"@ || s == "in"@ || s == "fun"@ || s == "where"@
}

/// Identifiers that are keywords of the language.
pub open spec fn is_keyword(s: Seq<char>) -> bool {
    s == "def"@ || s == "let"@ || s == "in"@ || s == "if"@ || s == "then"@ || s == "else"@ || s
        == "match"@ || s == "with"@ || s == "do"@ || s == "where"@ || s == "inductive"@ || s
        == "fun"@ || s == "structure"@ || s == "true"@ || s == "false"@
}

/// A parse error with this message, at this span.
pub open spec fn is_parse_error(e: CompilerError, msg: Seq<char>, span: Span) -> bool {
    e matches CompilerError::ParseError { msg: m, span: sp } && m@ == msg && sp == span
}

/// Whether `r`, with the parser left at `end`, is what the grammar gives:
/// the tree (by its view) and the position after it, or the error and the
/// position where parsing stopped.
pub open spec fn parsed<T: View>(
    r: LustcResult<T>,
    end: int,
    g: Result<(<T as View>::V, int), ParseFailure>,
) -> bool {
    match g {
        Ok((v, j)) => r matches Ok(x) && x@ == v && end == j,
        Err((m, sp, j)) => r matches Err(e) && is_parse_error(e, m, sp) && end == j,
    }
}

/// The parser's error messages show a token's kind as its lexeme does.
pub proof fn lemma_lexeme_debug(k: TokenKind)
    ensures
        kind_debug(k) == crate::grammar::lexeme_debug(lexeme(k)),
{
}

/// The bindings of `where` blocks, by their views.
pub open spec fn bindings_model(bs: Seq<(String, Expr)>) -> Seq<(Seq<char>, ExprModel)> {
    bs.map_values(|b: (String, Expr)| (b.0@, expr_model(b.1)))
}

/// The cases of a pattern-matching definition, by their views.
pub open spec fn cases_model(cs: Seq<(Vec<Pattern>, Expr)>) -> Seq<(Seq<PatternModel>, ExprModel)> {
    cs.map_values(|c: (Vec<Pattern>, Expr)| (patterns_model(c.0@), expr_model(c.1)))
}

/// The message and span of a parse error.
pub open spec fn failure_of(e: CompilerError) -> (Seq<char>, Span) {
    match e {
        CompilerError::ParseError { msg, span } => (msg@, span),
        _ => (seq![], Span { line: 0, column: 0, end_column: 0 }),
    }
}

/// The messages and spans of the errors from index `n` on.
pub open spec fn failures(es: Seq<CompilerError>, n: int) -> Seq<(Seq<char>, Span)> {
    es.subrange(n, es.len() as int).map_values(|e: CompilerError| failure_of(e))
}

/// Whether `r` is the outcome of parsing a program that reads as `prog`
/// (its declarations and the errors met), `earlier` errors being recorded
/// already: the declarations when there is no error at all, else every
/// error, the earlier ones first.
pub open spec fn program_outcome(
    r: LustcResult<Vec<Decl>>,
    earlier: Seq<CompilerError>,
    prog: (Seq<DeclModel>, Seq<(Seq<char>, Span)>),
) -> bool {
    if earlier.len() == 0 && prog.1.len() == 0 {
        r matches Ok(ds) && decls_model(ds@) == prog.0
    } else {
        &&& r matches Err(e)
        &&& e matches CompilerError::Multiple(errs)
        &&& errs@.len() == earlier.len() + prog.1.len()
        &&& forall|i: int| 0 <= i < earlier.len() ==> errs@[i] == earlier[i]
        &&& forall|k: int|
            0 <= k < prog.1.len() ==> is_parse_error(
                #[trigger] errs@[earlier.len() + k],
                prog.1[k].0,
                prog.1[k].1,
            )
    }
}

/// The bound a parser of a whole source starts from, which nested parsers
/// of interpolated strings count down.
pub open spec fn top_bound() -> nat {
    (usize::MAX / 8 + 1) as nat
}

/// Whether `e` reports exactly the parse errors `fs` (message and span), in
/// order.
pub open spec fn reports_parse_errors(e: CompilerError, fs: Seq<(Seq<char>, Span)>) -> bool {
    &&& e matches CompilerError::Multiple(es)
    &&& es@.len() == fs.len()
    &&& forall|k: int| 0 <= k < fs.len() ==> is_parse_error(#[trigger] es@[k], fs[k].0, fs[k].1)
}

/// Whether `r` is what lexing and parsing the source `s` gives: the lexing
/// error, or the program's declarations, or all its parse errors.
pub open spec fn parse_outcome(s: Seq<char>, r: LustcResult<Vec<Decl>>) -> bool {
    match lexed(s) {
        Err((m, sp)) => r matches Err(e) && crate::lexer::is_lex_error(e, m, sp),
        Ok(ls) => program_outcome(r, seq![], program_at(ls, 0, top_bound())),
    }
}

/// Whether lexing or parsing the source `s` fails.
pub open spec fn parse_fails(s: Seq<char>) -> bool {
    match lexed(s) {
        Err(_) => true,
        Ok(ls) => program_at(ls, 0, top_bound()).1.len() > 0,
    }
}

pub struct Parser {
    tokens: Vec<Token>,
    pos: usize,
    errors: Vec<CompilerError>,
    /// A bound on the text of interpolated strings, which are parsed again by
    /// a parser of their own with a smaller bound.
    cap: Ghost<nat>,
}

impl Parser {
    pub closed spec fn tokens(&self) -> Seq<Token> {
        self.tokens@
    }

    /// The tokens as lexemes with their spans: what the grammar reads.
    pub closed spec fn lexes(&self) -> Seq<(Lexeme, Span)> {
        lexemes(self.tokens@)
    }

    pub closed spec fn pos(&self) -> int {
        self.pos as int
    }

    /// The bound that nested parsers of interpolated strings count down.
    pub closed spec fn nesting_bound(&self) -> nat {
        self.cap@
    }

    pub closed spec fn errors(&self) -> Seq<CompilerError> {
        self.errors@
    }

    /// The kind of the current token.
    pub closed spec fn kind(&self) -> TokenKind {
        self.tokens@[self.pos as int].kind
    }

    pub closed spec fn wf(&self) -> bool {
        &&& self.tokens@.len() >= 1
        &&& self.tokens@.last().kind is Eof
        &&& self.pos < self.tokens@.len()
        &&& self.cap@ <= usize::MAX / 8 + 1
        &&& forall|i: int| 0 <= i < self.tokens@.len() ==> payload_len(#[trigger] self.tokens@[i]) < self.cap@
    }

    /// Moved forward over the same tokens, errors untouched.
    pub closed spec fn stepped(&self, old: &Parser) -> bool {
        &&& self.wf()
        &&& self.tokens@ == old.tokens@
        &&& self.errors@ == old.errors@
        &&& self.cap@ == old.cap@
        &&& self.pos >= old.pos
    }

    pub fn new(tokens: Vec<Token>) -> (p: Parser)
        requires
            tokens@.len() >= 1,
            tokens@.last().kind is Eof,
            forall|i: int| 0 <= i < tokens@.len() ==> payload_len(#[trigger] tokens@[i]) <= usize::MAX / 8,
        ensures
            p.wf(),
            p.tokens() == tokens@,
            p.pos() == 0,
            p.errors().len() == 0,
            p.nesting_bound() == top_bound(),
            p.lexes() == lexemes(tokens@),
    {
        Parser { tokens, pos: 0, errors: Vec::new(), cap: Ghost((usize::MAX / 8 + 1) as nat) }
    }

    fn with_cap(tokens: Vec<Token>, cap: Ghost<nat>) -> (p: Parser)
        requires
            tokens@.len() >= 1,
            tokens@.last().kind is Eof,
            cap@ <= usize::MAX / 8 + 1,
            forall|i: int| 0 <= i < tokens@.len() ==> payload_len(#[trigger] tokens@[i]) < cap@,
        ensures
            p.wf(),
            p.cap@ == cap@,
            p.pos() == 0,
            p.tokens() == tokens@,
    {
        Parser { tokens, pos: 0, errors: Vec::new(), cap }
    }

    // --- Token navigation ---
    fn peek(&self) -> (k: &TokenKind)
        requires
            self.wf(),
        ensures
            *k == self.kind(),
    {
        &self.tokens[self.pos].kind
    }

    fn peek_span(&self) -> (s: Span)
        requires
            self.wf(),
        ensures
            s == self.tokens@[self.pos as int].span,
    {
        self.tokens[self.pos].span
    }

    /// Moves to the next token, staying on the final `Eof`.
    fn advance(&mut self)
        requires
            old(self).wf(),
        ensures
            final(self).stepped(old(self)),
            !(old(self).kind() is Eof) ==> final(self).pos == old(self).pos + 1,
            final(self).pos == next(old(self).lexes(), old(self).pos as int),
    {
        if self.pos < self.tokens.len() - 1 {
            self.pos = self.pos + 1;
        }
    }

    fn check(&self, kind: &TokenKind) -> (r: bool)
        requires
            self.wf(),
            is_plain_kind(*kind),
        ensures
            r == (self.kind() == *kind),
            r == crate::grammar::at(self.lexes(), self.pos as int, *kind),
    {
        tag_of(self.peek()) == tag_of(kind)
    }

    /// A parse error at the current token: `prefix` then the token's kind.
    fn error_here(&self, prefix: &str) -> (e: CompilerError)
        requires
            self.wf(),
        ensures
            is_parse_error(e, prefix@ + kind_debug(self.kind()), self.tokens@[self.pos as int].span),
            is_parse_error(
                e,
                error_at(self.lexes(), self.pos as int, prefix@).0,
                error_at(self.lexes(), self.pos as int, prefix@).1,
            ),
    {
        proof {
            lemma_lexeme_debug(self.kind());
        }
        let mut msg = String::new();
        msg.append(prefix);
        push_kind_debug(&mut msg, self.peek());
        CompilerError::ParseError { msg, span: self.peek_span() }
    }

    fn expect(&mut self, expected: &TokenKind) -> (r: LustcResult<()>)
        requires
            old(self).wf(),
            is_plain_kind(*expected),
            !(expected is Eof),
        ensures
            final(self).stepped(old(self)),
            old(self).kind() == *expected ==> r is Ok && final(self).pos == old(self).pos + 1,
            old(self).kind() != *expected ==> final(self).pos == old(self).pos && (r matches Err(
                e,
            ) && is_parse_error(
                e,
                "expected "@ + kind_debug(*expected) + ", found "@ + kind_debug(old(self).kind()),
                old(self).tokens@[old(self).pos as int].span,
            )),
            match expect_at(old(self).lexes(), old(self).pos as int, *expected) {
                Ok(j) => r is Ok && final(self).pos == j,
                Err((m, sp, j)) => r matches Err(e) && is_parse_error(e, m, sp) && final(self).pos
                    == j,
            },
    {
        proof {
            lemma_lexeme_debug(self.kind());
        }
        if self.check(expected) {
            self.advance();
            Ok(())
        } else {
            let mut msg = String::new();
            msg.append("expected ");
            push_kind_debug(&mut msg, expected);
            msg.append(", found ");
            push_kind_debug(&mut msg, self.peek());
            Err(CompilerError::ParseError { msg, span: self.peek_span() })
        }
    }

    fn is_at_end(&self) -> (r: bool)
        requires
            self.wf(),
        ensures
            r == (self.kind() is Eof),
    {
        match self.peek() {
            TokenKind::Eof => true,
            _ => false,
        }
    }

    fn is_decl_start(&self) -> (r: bool)
        requires
            self.wf(),
        ensures
            r == is_decl_start_kind(self.kind()),
    {
        match self.peek() {
            TokenKind::Def | TokenKind::Inductive | TokenKind::Structure | TokenKind::HashEval
            | TokenKind::Import | TokenKind::Open | TokenKind::Namespace => true,
            _ => false,
        }
    }

    /// Skips layout tokens.
    fn skip_newlines(&mut self)
        requires
            old(self).wf(),
        ensures
            final(self).stepped(old(self)),
            !is_layout_kind(final(self).kind()),
            forall|i: int|
                old(self).pos <= i < final(self).pos ==> is_layout_kind(
                    #[trigger] final(self).tokens@[i].kind,
                ),
            final(self).pos == skip_layout(old(self).lexes(), old(self).pos as int),
    {
        loop
            invariant
                self.stepped(old(self)),
                skip_layout(self.lexes(), self.pos as int) == skip_layout(old(self).lexes(), old(self).pos as int),
                forall|i: int|
                    old(self).pos <= i < self.pos ==> is_layout_kind(#[trigger] self.tokens@[i].kind),
            ensures
                !is_layout_kind(self.kind()),
            decreases self.tokens@.len() - self.pos,
        {
            match self.peek() {
                TokenKind::Newline | TokenKind::Indent | TokenKind::Dedent => {},
                _ => break,
            }
            self.advance();
        }
    }

    /// Skips `Newline` tokens.
    fn skip_newlines_only(&mut self)
        requires
            old(self).wf(),
        ensures
            final(self).stepped(old(self)),
            !(final(self).kind() is Newline),
            forall|i: int|
                old(self).pos <= i < final(self).pos ==> (#[trigger] final(self).tokens@[i]).kind is Newline,
            final(self).pos == skip_line_breaks(old(self).lexes(), old(self).pos as int),
    {
        loop
            invariant
                self.stepped(old(self)),
                skip_line_breaks(self.lexes(), self.pos as int) == skip_line_breaks(old(self).lexes(), old(self).pos as int),
                forall|i: int|
                    old(self).pos <= i < self.pos ==> (#[trigger] self.tokens@[i]).kind is Newline,
            ensures
                !(self.kind() is Newline),
            decreases self.tokens@.len() - self.pos,
        {
            match self.peek() {
                TokenKind::Newline => {},
                _ => break,
            }
            self.advance();
        }
    }

    /// After an error: skips to the next declaration or the end.
    fn synchronize(&mut self)
        requires
            old(self).wf(),
        ensures
            final(self).stepped(old(self)),
            is_decl_start_kind(final(self).kind()) || final(self).kind() is Eof,
            forall|i: int|
                old(self).pos <= i < final(self).pos ==> !is_decl_start_kind(
                    #[trigger] final(self).tokens@[i].kind,
                ),
            final(self).pos == resync(old(self).lexes(), old(self).pos as int),
    {
        loop
            invariant
                self.stepped(old(self)),
                resync(self.lexes(), self.pos as int) == resync(old(self).lexes(), old(self).pos as int),
                forall|i: int|
                    old(self).pos <= i < self.pos ==> !is_decl_start_kind(
                        #[trigger] self.tokens@[i].kind,
                    ),
            ensures
                is_decl_start_kind(self.kind()) || self.kind() is Eof,
            decreases self.tokens@.len() - self.pos,
        {
            if self.is_decl_start() || self.is_at_end() {
                break;
            }
            self.advance();
        }
    }

    fn parse_ident(&mut self) -> (r: LustcResult<String>)
        requires
            old(self).wf(),
        ensures
            final(self).stepped(old(self)),
            old(self).kind() matches TokenKind::Ident(n) ==> (r matches Ok(s) && s@ == n@
                && final(self).pos == old(self).pos + 1),
            !(old(self).kind() is Ident) ==> final(self).pos == old(self).pos && (r matches Err(e)
                && is_parse_error(
                e,
                "expected identifier, found "@ + kind_debug(old(self).kind()),
                old(self).tokens@[old(self).pos as int].span,
            )),
            parsed(r, final(self).pos as int, ident_at(old(self).lexes(), old(self).pos as int)),
    {
        match self.peek() {
            TokenKind::Ident(name) => {
                let name = copy_string(name);
                self.advance();
                Ok(name)
            },
            _ => Err(self.error_here("expected identifier, found ")),
        }
    }
}


impl Parser {
    /// Parses the whole token stream. After an error, parsing resumes at the
    /// next declaration, so that all errors are reported together.
    pub fn parse_program(&mut self) -> (r: LustcResult<Vec<Decl>>)
        requires
            old(self).wf(),
        ensures
            final(self).wf(),
            final(self).kind() is Eof,
            final(self).errors().len() == 0,
            r matches Err(e) ==> (e matches CompilerError::Multiple(errs) && errs@.len() >= 1
                && errs@.len() >= old(self).errors().len() && forall|i: int|
                old(self).errors().len() <= i < errs@.len() ==> (#[trigger] errs@[i]) is ParseError),
            old(self).errors().len() > 0 ==> r is Err,
            program_outcome(
                r,
                old(self).errors(),
                program_at(old(self).lexes(), old(self).pos(), old(self).nesting_bound()),
            ),
    {
        reveal(program_at);
        let ghost ls = self.lexes();
        let ghost cap = self.cap@;
        let ghost n0 = self.errors@.len() as int;
        let mut decls: Vec<Decl> = Vec::new();
        self.skip_newlines();
        assert(decls_model(decls@) =~= seq![]);
        assert(failures(self.errors@, n0) =~= seq![]);
        while !self.is_at_end()
            invariant
                self.wf(),
                self.errors@.len() >= old(self).errors@.len(),
                forall|i: int|
                    old(self).errors@.len() <= i < self.errors@.len() ==> (#[trigger] self.errors@[i]) is ParseError,
                forall|i: int| 0 <= i < old(self).errors@.len() ==> self.errors@[i] == old(self).errors@[i],
                ls == self.lexes(),
                cap == self.cap@,
                n0 == old(self).errors@.len(),
                program_at(ls, old(self).pos as int, cap) == program_rest(
                    ls,
                    self.pos as int,
                    decls_model(decls@),
                    failures(self.errors@, n0),
                    cap,
                ),
            decreases self.tokens@.len() - self.pos,
        {
            let ghost p0 = self.pos;
            match self.parse_decl() {
                Ok(decl) => {
                    proof {
                        crate::ast::lemma_decls_model_push(decls@, decl);
                    }
                    decls.push(decl);
                },
                Err(e) => {
                    let ghost p1 = self.pos;
                    let ghost es0 = self.errors@;
                    self.errors.push(e);
                    assert(failures(self.errors@, n0) =~= failures(es0, n0).push(failure_of(e)));
                    self.synchronize();
                    proof {
                        if self.pos == p0 {
                            assert(p1 == p0);
                            assert(!is_decl_start_kind(self.tokens@[p0 as int].kind));
                        }
                    }
                },
            }
            self.skip_newlines();
        }
        if self.errors.len() == 0 {
            Ok(decls)
        } else {
            let mut errs: Vec<CompilerError> = Vec::new();
            std::mem::swap(&mut errs, &mut self.errors);
            assert forall|k: int| 0 <= k < failures(errs@, n0).len() implies is_parse_error(
                #[trigger] errs@[n0 + k],
                failures(errs@, n0)[k].0,
                failures(errs@, n0)[k].1,
            ) by {
                assert(errs@[n0 + k] is ParseError);
            }
            Err(CompilerError::Multiple(errs))
        }
    }

    /// Parses one expression (used for the holes of interpolated strings).
    pub fn parse_single_expr(&mut self) -> (r: LustcResult<Expr>)
        requires
            old(self).wf(),
        ensures
            final(self).stepped(old(self)),
            r matches Err(e) ==> e is ParseError,
            parsed(r, final(self).pos(), expr_at(old(self).lexes(), old(self).pos(), old(self).nesting_bound())),
        decreases old(self).nesting_bound(), old(self).tokens().len() - old(self).pos(), 31nat,
    {
        self.parse_expr()
    }

    fn parse_decl(&mut self) -> (r: LustcResult<Decl>)
        requires
            old(self).wf(),
        ensures
            final(self).stepped(old(self)),
            r is Ok ==> final(self).pos > old(self).pos,
            r matches Err(e) ==> e is ParseError,
            is_decl_start_kind(old(self).kind()) ==> final(self).pos > old(self).pos,
            !is_decl_start_kind(old(self).kind()) ==> final(self).pos == old(self).pos && (r matches Err(e)
                && is_parse_error(
                e,
                "expected declaration, found "@ + kind_debug(old(self).kind()),
                old(self).tokens@[old(self).pos as int].span,
            )),
            parsed(r, final(self).pos as int, decl_at(old(self).lexes(), old(self).pos as int, old(self).cap@)),
        decreases old(self).tokens@.len() - old(self).pos, 40nat,
    {
        if self.check(&TokenKind::Def) {
            self.parse_def()
        } else if self.check(&TokenKind::Inductive) {
            self.parse_inductive()
        } else if self.check(&TokenKind::Structure) {
            self.parse_structure()
        } else if self.check(&TokenKind::HashEval) {
            self.parse_eval()
        } else if self.check(&TokenKind::Import) {
            let path = self.parse_keyword_path(&TokenKind::Import)?;
            Ok(Decl::Import { path })
        } else if self.check(&TokenKind::Open) {
            let path = self.parse_keyword_path(&TokenKind::Open)?;
            Ok(Decl::Open { path })
        } else if self.check(&TokenKind::Namespace) {
            self.parse_namespace()
        } else {
            Err(self.error_here("expected declaration, found "))
        }
    }

    fn parse_def(&mut self) -> (r: LustcResult<Decl>)
        requires
            old(self).wf(),
            old(self).kind() is Def,
        ensures
            final(self).stepped(old(self)),
            final(self).pos > old(self).pos,
            r is Ok ==> final(self).pos > old(self).pos,
            r matches Err(e) ==> e is ParseError,
            parsed(r, final(self).pos as int, def_at(old(self).lexes(), old(self).pos as int, old(self).cap@)),
    {
        self.expect(&TokenKind::Def)?;
        let name = self.parse_ident()?;
        let params = self.parse_def_params()?;
        let return_type = if self.check(&TokenKind::Colon) {
            self.advance();
            Some(self.parse_type()?)
        } else {
            None
        };
        self.skip_newlines();
        if self.check(&TokenKind::ColonEq) {
            self.advance();
            self.skip_newlines();
            let body = self.parse_expr()?;
            let body = self.parse_where_clauses(body)?;
            Ok(Decl::FunDef { name, params, return_type, body })
        } else if self.check(&TokenKind::Newline) || self.check(&TokenKind::Indent) || self.check(
            &TokenKind::Pipe,
        ) {
            self.skip_newlines();
            if self.check(&TokenKind::Indent) {
                self.advance();
            }
            let cases = self.parse_match_cases()?;
            Ok(Decl::FunDefMatch { name, params, return_type, cases })
        } else {
            Err(self.error_here("expected ':=' or pattern cases after def, found "))
        }
    }

    /// The `(name : type)` parameters of a definition.
    fn parse_def_params(&mut self) -> (r: LustcResult<Vec<(String, Type)>>)
        requires
            old(self).wf(),
        ensures
            final(self).stepped(old(self)),
            r matches Err(e) ==> e is ParseError,
            match def_params_rest(old(self).lexes(), old(self).pos as int, seq![]) {
                Ok((ps, k)) => r matches Ok(v) && typed_names_model(v@) == ps && final(self).pos
                    == k,
                Err((m, sp, k)) => r matches Err(e) && is_parse_error(e, m, sp) && final(self).pos
                    == k,
            },
    {
        let ghost ls = self.lexes();
        let mut params: Vec<(String, Type)> = Vec::new();
        assert(typed_names_model(params@) =~= seq![]);
        while self.check(&TokenKind::LParen)
            invariant
                self.stepped(old(self)),
                ls == self.lexes(),
                def_params_rest(ls, old(self).pos as int, seq![]) == def_params_rest(
                    ls,
                    self.pos as int,
                    typed_names_model(params@),
                ),
            decreases self.tokens@.len() - self.pos,
        {
            let ghost acc0 = params@;
            self.advance();
            let param_name = self.parse_ident()?;
            self.expect(&TokenKind::Colon)?;
            let param_type = self.parse_type()?;
            self.expect(&TokenKind::RParen)?;
            params.push((param_name, param_type));
            assert(typed_names_model(params@) =~= typed_names_model(acc0).push(
                (param_name@, type_model(param_type)),
            ));
        }
        Ok(params)
    }

    /// The `where` blocks after a definition's body, whose bindings enclose
    /// the body, the first outermost.
    fn parse_where_clauses(&mut self, body: Expr) -> (r: LustcResult<Expr>)
        requires
            old(self).wf(),
        ensures
            final(self).stepped(old(self)),
            r matches Err(e) ==> e is ParseError,
            match where_rest(old(self).lexes(), old(self).pos as int, seq![], old(self).cap@) {
                Ok((bs, k)) => r matches Ok(x) && x@ == wrap_lets(bs, body@) && final(self).pos
                    == k,
                Err((m, sp, k)) => r matches Err(e) && is_parse_error(e, m, sp) && final(self).pos
                    == k,
            },
    {
        let ghost ls = self.lexes();
        let ghost cap = self.cap@;
        let mut all_bindings: Vec<(String, Expr)> = Vec::new();
        assert(bindings_model(all_bindings@) =~= seq![]);
        loop
            invariant_except_break
                where_rest(ls, old(self).pos as int, seq![], cap) == where_rest(
                    ls,
                    self.pos as int,
                    bindings_model(all_bindings@),
                    cap,
                ),
            invariant
                self.stepped(old(self)),
                ls == self.lexes(),
                cap == self.cap@,
            ensures
                where_rest(ls, old(self).pos as int, seq![], cap) == Ok::<_, ParseFailure>(
                    (bindings_model(all_bindings@), self.pos as int),
                ),
            decreases self.tokens@.len() - self.pos,
        {
            self.skip_newlines();
            if !self.check(&TokenKind::Where) {
                break;
            }
            self.advance();
            self.skip_newlines();
            if self.check(&TokenKind::Indent) {
                self.advance();
            }
            self.parse_where_bindings(&mut all_bindings)?;
            if self.check(&TokenKind::Dedent) {
                self.advance();
            }
        }
        let ghost all = bindings_model(all_bindings@);
        let mut result = body;
        while all_bindings.len() > 0
            invariant
                wrap_lets(all, body@) == wrap_lets(bindings_model(all_bindings@), result@),
            decreases all_bindings@.len(),
        {
            let ghost b0 = all_bindings@;
            let (name, value) = all_bindings.pop().unwrap();
            assert(bindings_model(all_bindings@) =~= bindings_model(b0).drop_last());
            result = Expr::Let { name, ty: None, value: Box::new(value), body: Box::new(result) };
        }
        Ok(result)
    }

    /// The bindings of one `where` block, appended to `bindings`.
    fn parse_where_bindings(&mut self, bindings: &mut Vec<(String, Expr)>) -> (r: LustcResult<()>)
        requires
            old(self).wf(),
        ensures
            final(self).stepped(old(self)),
            r matches Err(e) ==> e is ParseError,
            match where_bindings_rest(
                old(self).lexes(),
                old(self).pos as int,
                bindings_model(old(bindings)@),
                old(self).cap@,
            ) {
                Ok((bs, k)) => r is Ok && bindings_model(final(bindings)@) == bs && final(self).pos
                    == k,
                Err((m, sp, k)) => r matches Err(e) && is_parse_error(e, m, sp) && final(self).pos
                    == k,
            },
    {
        let ghost ls = self.lexes();
        let ghost cap = self.cap@;
        loop
            invariant_except_break
                where_bindings_rest(ls, old(self).pos as int, bindings_model(old(bindings)@), cap)
                    == where_bindings_rest(ls, self.pos as int, bindings_model(bindings@), cap),
            invariant
                self.stepped(old(self)),
                ls == self.lexes(),
                cap == self.cap@,
            ensures
                where_bindings_rest(ls, old(self).pos as int, bindings_model(old(bindings)@), cap)
                    == Ok::<_, ParseFailure>((bindings_model(bindings@), self.pos as int)),
            decreases self.tokens@.len() - self.pos,
        {
            self.skip_newlines_only();
            if self.is_at_end() || self.check(&TokenKind::Dedent) || self.is_decl_start()
                || self.check(&TokenKind::Where) {
                break;
            }
            let binding_name = self.parse_ident()?;
            self.expect(&TokenKind::ColonEq)?;
            self.skip_newlines_only();
            let value = self.parse_expr()?;
            let ghost b0 = bindings@;
            bindings.push((binding_name, value));
            assert(bindings_model(bindings@) =~= bindings_model(b0).push(
                (binding_name@, expr_model(value)),
            ));
            self.skip_newlines_only();
        }
        Ok(())
    }

    /// The cases of a pattern-matching definition.
    fn parse_match_cases(&mut self) -> (r: LustcResult<Vec<(Vec<Pattern>, Expr)>>)
        requires
            old(self).wf(),
        ensures
            final(self).stepped(old(self)),
            r matches Err(e) ==> e is ParseError,
            match cases_rest(old(self).lexes(), old(self).pos as int, seq![], old(self).cap@) {
                Ok((cs, k)) => r matches Ok(v) && cases_model(v@) == cs && final(self).pos == k,
                Err((m, sp, k)) => r matches Err(e) && is_parse_error(e, m, sp) && final(self).pos
                    == k,
            },
    {
        let ghost ls = self.lexes();
        let ghost cap = self.cap@;
        let mut cases: Vec<(Vec<Pattern>, Expr)> = Vec::new();
        assert(cases_model(cases@) =~= seq![]);
        while self.check(&TokenKind::Pipe)
            invariant
                self.stepped(old(self)),
                ls == self.lexes(),
                cap == self.cap@,
                cases_rest(ls, old(self).pos as int, seq![], cap) == cases_rest(
                    ls,
                    self.pos as int,
                    cases_model(cases@),
                    cap,
                ),
            decreases self.tokens@.len() - self.pos,
        {
            self.advance();
            let patterns = self.parse_case_patterns()?;
            self.expect(&TokenKind::FatArrow)?;
            self.skip_newlines();
            let body = self.parse_expr()?;
            let ghost c0 = cases@;
            cases.push((patterns, body));
            assert(cases_model(cases@) =~= cases_model(c0).push(
                (patterns_model(patterns@), expr_model(body)),
            ));
            self.skip_newlines();
        }
        if self.check(&TokenKind::Dedent) {
            self.advance();
        }
        Ok(cases)
    }

    /// The patterns of one case, up to its `=>`.
    fn parse_case_patterns(&mut self) -> (r: LustcResult<Vec<Pattern>>)
        requires
            old(self).wf(),
        ensures
            final(self).stepped(old(self)),
            r matches Err(e) ==> e is ParseError,
            match case_patterns_rest(old(self).lexes(), old(self).pos as int, seq![]) {
                Ok((ps, k)) => r matches Ok(v) && patterns_model(v@) == ps && final(self).pos == k,
                Err((m, sp, k)) => r matches Err(e) && is_parse_error(e, m, sp) && final(self).pos
                    == k,
            },
    {
        let ghost ls = self.lexes();
        let mut patterns: Vec<Pattern> = Vec::new();
        assert(patterns_model(patterns@) =~= seq![]);
        loop
            invariant_except_break
                case_patterns_rest(ls, old(self).pos as int, seq![]) == case_patterns_rest(
                    ls,
                    self.pos as int,
                    patterns_model(patterns@),
                ),
            invariant
                self.stepped(old(self)),
                ls == self.lexes(),
            ensures
                case_patterns_rest(ls, old(self).pos as int, seq![]) == Ok::<_, ParseFailure>(
                    (patterns_model(patterns@), self.pos as int),
                ),
            decreases self.tokens@.len() - self.pos,
        {
            if self.check(&TokenKind::FatArrow) {
                break;
            }
            let pat = self.parse_pattern()?;
            proof {
                crate::ast::lemma_patterns_model_push(patterns@, pat);
            }
            patterns.push(pat);
            if self.check(&TokenKind::Comma) {
                self.advance();
            }
        }
        Ok(patterns)
    }

    fn parse_inductive(&mut self) -> (r: LustcResult<Decl>)
        requires
            old(self).wf(),
            old(self).kind() is Inductive,
        ensures
            final(self).stepped(old(self)),
            final(self).pos > old(self).pos,
            r is Ok ==> final(self).pos > old(self).pos,
            r matches Err(e) ==> e is ParseError,
            parsed(r, final(self).pos as int, inductive_at(old(self).lexes(), old(self).pos as int)),
    {
        let ghost ls = self.lexes();
        self.expect(&TokenKind::Inductive)?;
        let name = self.parse_ident()?;
        self.expect(&TokenKind::Where)?;
        let ghost j2 = self.pos as int;
        self.skip_newlines();
        if self.check(&TokenKind::Indent) {
            self.advance();
        }
        let mut constructors: Vec<Constructor> = Vec::new();
        assert(constructors@.map_values(|c: Constructor| (c.name@, types_model(c.fields@))) =~= seq![]);
        while self.check(&TokenKind::Pipe)
            invariant
                self.stepped(old(self)),
                self.pos > old(self).pos,
                ls == self.lexes(),
                inductive_at(ls, old(self).pos as int) == match ctors_rest(
                    ls,
                    self.pos as int,
                    constructors@.map_values(|c: Constructor| (c.name@, types_model(c.fields@))),
                ) {
                    Err(e) => Err(e),
                    Ok((cs, k)) => Ok::<_, ParseFailure>(
                        (DeclModel::InductiveDef { name: name@, constructors: cs }, block_close(ls, k)),
                    ),
                },
            decreases self.tokens@.len() - self.pos,
        {
            let ghost p_iter = self.pos;
            let ghost acc0 = constructors@.map_values(|c: Constructor| (c.name@, types_model(c.fields@)));
            self.advance();
            let ctor_name = self.parse_ident()?;
            let fields = if self.check(&TokenKind::Colon) {
                self.advance();
                self.parse_ctor_fields()?
            } else {
                let v: Vec<Type> = Vec::new();
                assert(types_model(v@) =~= seq![]);
                v
            };
            constructors.push(Constructor { name: ctor_name, fields });
            assert(constructors@.map_values(|c: Constructor| (c.name@, types_model(c.fields@)))
                =~= acc0.push((ctor_name@, types_model(fields@))));
            self.skip_newlines();
        }
        if self.check(&TokenKind::Dedent) {
            self.advance();
        }
        Ok(Decl::InductiveDef { name, constructors })
    }

    /// The field types of a constructor after its `:` (all types of the
    /// arrow chain but the last).
    fn parse_ctor_fields(&mut self) -> (r: LustcResult<Vec<Type>>)
        requires
            old(self).wf(),
        ensures
            final(self).stepped(old(self)),
            r is Ok ==> final(self).pos > old(self).pos,
            r matches Err(e) ==> e is ParseError,
            match ctor_fields_rest(old(self).lexes(), old(self).pos as int, seq![]) {
                Ok((fs, k)) => r matches Ok(v) && types_model(v@) == fs && final(self).pos == k,
                Err((m, sp, k)) => r matches Err(e) && is_parse_error(e, m, sp) && final(self).pos
                    == k,
            },
    {
        let ghost ls = self.lexes();
        let mut fields: Vec<Type> = Vec::new();
        assert(types_model(fields@) =~= seq![]);
        loop
            invariant_except_break
                ctor_fields_rest(ls, old(self).pos as int, seq![]) == ctor_fields_rest(
                    ls,
                    self.pos as int,
                    types_model(fields@),
                ),
            invariant
                self.stepped(old(self)),
                ls == self.lexes(),
            ensures
                self.pos > old(self).pos,
                ctor_fields_rest(ls, old(self).pos as int, seq![]) == Ok::<_, ParseFailure>(
                    (types_model(fields@), self.pos as int),
                ),
            decreases self.tokens@.len() - self.pos,
        {
            let ty = self.parse_type_app()?;
            if self.check(&TokenKind::Arrow) {
                proof {
                    crate::ast::lemma_types_model_push(fields@, ty);
                }
                fields.push(ty);
                self.advance();
                let next_ty = self.parse_type_app()?;
                if !self.check(&TokenKind::Arrow) {
                    break;
                } else {
                    proof {
                        crate::ast::lemma_types_model_push(fields@, next_ty);
                    }
                    fields.push(next_ty);
                    self.advance();
                }
            } else {
                break;
            }
        }
        Ok(fields)
    }

    fn parse_structure(&mut self) -> (r: LustcResult<Decl>)
        requires
            old(self).wf(),
            old(self).kind() is Structure,
        ensures
            final(self).stepped(old(self)),
            final(self).pos > old(self).pos,
            r is Ok ==> final(self).pos > old(self).pos,
            r matches Err(e) ==> e is ParseError,
            parsed(r, final(self).pos as int, structure_at(old(self).lexes(), old(self).pos as int)),
    {
        let ghost ls = self.lexes();
        self.expect(&TokenKind::Structure)?;
        let name = self.parse_ident()?;
        self.expect(&TokenKind::Where)?;
        self.skip_newlines();
        if self.check(&TokenKind::Indent) {
            self.advance();
        }
        let mut fields: Vec<(String, Type)> = Vec::new();
        assert(typed_names_model(fields@) =~= seq![]);
        loop
            invariant_except_break
                structure_at(ls, old(self).pos as int) == match struct_fields_rest(
                    ls,
                    self.pos as int,
                    typed_names_model(fields@),
                ) {
                    Err(e) => Err(e),
                    Ok((fs, k)) => Ok::<_, ParseFailure>(
                        (DeclModel::StructDef { name: name@, fields: fs }, block_close(ls, k)),
                    ),
                },
            invariant
                self.stepped(old(self)),
                self.pos > old(self).pos,
                ls == self.lexes(),
            ensures
                structure_at(ls, old(self).pos as int) == Ok::<_, ParseFailure>(
                    (
                        DeclModel::StructDef { name: name@, fields: typed_names_model(fields@) },
                        block_close(ls, self.pos as int),
                    ),
                ),
            decreases self.tokens@.len() - self.pos,
        {
            let ghost acc0 = fields@;
            self.skip_newlines_only();
            if self.is_at_end() || self.check(&TokenKind::Dedent) || self.is_decl_start() {
                break;
            }
            let field_name = self.parse_ident()?;
            self.expect(&TokenKind::Colon)?;
            let field_type = self.parse_type()?;
            fields.push((field_name, field_type));
            assert(typed_names_model(fields@) =~= typed_names_model(acc0).push(
                (field_name@, type_model(field_type)),
            ));
            self.skip_newlines_only();
        }
        if self.check(&TokenKind::Dedent) {
            self.advance();
        }
        Ok(Decl::StructDef { name, fields })
    }

    fn parse_eval(&mut self) -> (r: LustcResult<Decl>)
        requires
            old(self).wf(),
            old(self).kind() is HashEval,
        ensures
            final(self).stepped(old(self)),
            final(self).pos > old(self).pos,
            r is Ok ==> final(self).pos > old(self).pos,
            r matches Err(e) ==> e is ParseError,
            r matches Ok(d) ==> d is Eval,
            parsed(r, final(self).pos as int, decl_at(old(self).lexes(), old(self).pos as int, old(self).cap@)),
    {
        self.expect(&TokenKind::HashEval)?;
        self.skip_newlines();
        let expr = self.parse_expr()?;
        Ok(Decl::Eval(expr))
    }

    fn parse_keyword_path(&mut self, keyword: &TokenKind) -> (r: LustcResult<ModulePath>)
        requires
            old(self).wf(),
            is_plain_kind(*keyword),
            old(self).kind() == *keyword,
            !(keyword is Eof),
        ensures
            final(self).stepped(old(self)),
            final(self).pos > old(self).pos,
            r is Ok ==> final(self).pos > old(self).pos,
            r matches Err(e) ==> e is ParseError,
            match path_at(old(self).lexes(), old(self).pos as int) {
                Ok((segs, k)) => r matches Ok(p) && views(p.segments@) == segs && final(self).pos
                    == k,
                Err((m, sp, k)) => r matches Err(e) && is_parse_error(e, m, sp) && final(self).pos
                    == k,
            },
    {
        let ghost ls = self.lexes();
        self.expect(keyword)?;
        let first = self.parse_ident()?;
        let mut segments: Vec<String> = Vec::new();
        segments.push(first);
        assert(views(segments@) =~= seq![first@]);
        while self.check(&TokenKind::Dot)
            invariant
                self.stepped(old(self)),
                self.pos > old(self).pos,
                ls == self.lexes(),
                path_at(ls, old(self).pos as int) == path_rest(ls, self.pos as int, views(segments@)),
            decreases self.tokens@.len() - self.pos,
        {
            self.advance();
            let part = self.parse_ident()?;
            let ghost s0 = segments@;
            segments.push(part);
            assert(views(segments@) =~= views(s0).push(part@));
        }
        Ok(ModulePath { segments })
    }

    #[verifier::spinoff_prover]
    #[verifier::rlimit(60)]
    fn parse_namespace(&mut self) -> (r: LustcResult<Decl>)
        requires
            old(self).wf(),
            old(self).kind() is Namespace,
        ensures
            final(self).stepped(old(self)),
            final(self).pos > old(self).pos,
            r is Ok ==> final(self).pos > old(self).pos,
            r matches Err(e) ==> e is ParseError,
            parsed(r, final(self).pos as int, namespace_at(old(self).lexes(), old(self).pos as int, old(self).cap@)),
        decreases old(self).tokens@.len() - old(self).pos, 39nat,
    {
        let ghost ls = self.lexes();
        let ghost cap = self.cap@;
        self.expect(&TokenKind::Namespace)?;
        let name = self.parse_ident()?;
        let mut decls: Vec<Decl> = Vec::new();
        assert(decls_model(decls@) =~= seq![]);
        loop
            invariant_except_break
                namespace_at(ls, old(self).pos as int, cap) == match namespace_rest(
                    ls,
                    self.pos as int,
                    name@,
                    decls_model(decls@),
                    cap,
                ) {
                    Err(e) => Err(e),
                    Ok((ds, k)) => Ok::<_, ParseFailure>(
                        (DeclModel::Namespace { name: name@, decls: ds }, k),
                    ),
                },
            invariant
                self.stepped(old(self)),
                self.pos > old(self).pos,
                ls == self.lexes(),
                cap == self.cap@,
            ensures
                crate::grammar::at(ls, self.pos as int, TokenKind::End),
                namespace_at(ls, old(self).pos as int, cap) == match namespace_rest(
                    ls,
                    self.pos as int,
                    name@,
                    decls_model(decls@),
                    cap,
                ) {
                    Err(e) => Err(e),
                    Ok((ds, k)) => Ok::<_, ParseFailure>(
                        (DeclModel::Namespace { name: name@, decls: ds }, k),
                    ),
                },
            decreases self.tokens@.len() - self.pos,
        {
            self.skip_newlines();
            if self.check(&TokenKind::End) {
                break;
            }
            if self.is_at_end() {
                let mut msg = String::new();
                msg.append("expected `end ");
                msg.append(name.as_str());
                msg.append("`, found end of input");
                return Err(CompilerError::ParseError { msg, span: self.peek_span() });
            }
            let decl = self.parse_decl()?;
            proof {
                crate::ast::lemma_decls_model_push(decls@, decl);
            }
            decls.push(decl);
        }
        self.advance();
        let end_span = self.peek_span();
        let end_name = self.parse_ident()?;
        if end_name != name {
            let mut msg = String::new();
            msg.append("expected `end ");
            msg.append(name.as_str());
            msg.append("`, found `end ");
            msg.append(end_name.as_str());
            push_char(&mut msg, '`');
            assert(msg@ =~= crate::grammar::end_mismatch(name@, end_name@));
            return Err(CompilerError::ParseError { msg, span: end_span });
        }
        Ok(Decl::Namespace { name, decls })
    }

}


impl Parser {
    fn parse_type(&mut self) -> (r: LustcResult<Type>)
        requires
            old(self).wf(),
        ensures
            final(self).stepped(old(self)),
            r is Ok ==> final(self).pos > old(self).pos,
            r matches Err(e) ==> e is ParseError,
            parsed(r, final(self).pos as int, type_at(old(self).lexes(), old(self).pos as int)),
        decreases old(self).tokens@.len() - old(self).pos, 4nat,
    {
        let lhs = self.parse_type_product()?;
        if self.check(&TokenKind::Arrow) {
            self.advance();
            let rhs = self.parse_type()?;
            Ok(Type::Arrow(Box::new(lhs), Box::new(rhs)))
        } else {
            Ok(lhs)
        }
    }

    fn parse_type_product(&mut self) -> (r: LustcResult<Type>)
        requires
            old(self).wf(),
        ensures
            final(self).stepped(old(self)),
            r is Ok ==> final(self).pos > old(self).pos,
            r matches Err(e) ==> e is ParseError,
            parsed(r, final(self).pos as int, type_product_at(old(self).lexes(), old(self).pos as int)),
        decreases old(self).tokens@.len() - old(self).pos, 3nat,
    {
        let ghost ls = self.lexes();
        let first = self.parse_type_app()?;
        if self.check(&TokenKind::Times) {
            let mut types: Vec<Type> = Vec::new();
            types.push(first);
            proof {
                crate::ast::lemma_types_model_push(seq![], first);
                assert(seq![first] =~= seq![].push(first));
            }
            while self.check(&TokenKind::Times)
                invariant
                    self.stepped(old(self)),
                    self.pos > old(self).pos,
                    ls == self.lexes(),
                    type_product_at(ls, old(self).pos as int) == product_rest(
                        ls,
                        self.pos as int,
                        types_model(types@),
                    ),
                decreases self.tokens@.len() - self.pos,
            {
                self.advance();
                let ty = self.parse_type_app()?;
                proof {
                    crate::ast::lemma_types_model_push(types@, ty);
                }
                types.push(ty);
            }
            Ok(Type::Tuple(types))
        } else {
            Ok(first)
        }
    }

    fn parse_type_app(&mut self) -> (r: LustcResult<Type>)
        requires
            old(self).wf(),
        ensures
            final(self).stepped(old(self)),
            r is Ok ==> final(self).pos > old(self).pos,
            r matches Err(e) ==> e is ParseError,
            parsed(r, final(self).pos as int, type_app_at(old(self).lexes(), old(self).pos as int)),
        decreases old(self).tokens@.len() - old(self).pos, 2nat,
    {
        let ghost ls = self.lexes();
        let mut ty = self.parse_type_atom()?;
        while self.is_type_start()
            invariant
                self.stepped(old(self)),
                self.pos > old(self).pos,
                ls == self.lexes(),
                type_app_at(ls, old(self).pos as int) == type_app_rest(ls, self.pos as int, ty@),
            decreases self.tokens@.len() - self.pos,
        {
            let arg = self.parse_type_atom()?;
            ty = Type::App(Box::new(ty), Box::new(arg));
        }
        Ok(ty)
    }

    fn parse_type_atom(&mut self) -> (r: LustcResult<Type>)
        requires
            old(self).wf(),
        ensures
            final(self).stepped(old(self)),
            r is Ok ==> final(self).pos > old(self).pos,
            r matches Err(e) ==> e is ParseError,
            old(self).kind() matches TokenKind::Ident(n) ==> (r matches Ok(ty) && if n@ == "Unit"@ {
                ty is Unit
            } else {
                ty matches Type::Named(m) && m@ == n@
            }),
            parsed(r, final(self).pos as int, type_atom_at(old(self).lexes(), old(self).pos as int)),
        decreases old(self).tokens@.len() - old(self).pos, 1nat,
    {
        if self.check(&TokenKind::LParen) {
            self.advance();
            if self.check(&TokenKind::RParen) {
                self.advance();
                Ok(Type::Unit)
            } else {
                let ty = self.parse_type()?;
                self.expect(&TokenKind::RParen)?;
                Ok(ty)
            }
        } else if self.is_ident() {
            let name = self.parse_ident()?;
            if str_is(name.as_str(), "Unit") {
                Ok(Type::Unit)
            } else {
                Ok(Type::Named(name))
            }
        } else {
            Err(self.error_here("expected type, found "))
        }
    }

    fn is_ident(&self) -> (r: bool)
        requires
            self.wf(),
        ensures
            r == (self.kind() is Ident),
    {
        match self.peek() {
            TokenKind::Ident(_) => true,
            _ => false,
        }
    }

    fn is_type_start(&self) -> (r: bool)
        requires
            self.wf(),
        ensures
            r == ((self.kind() is Ident && !is_expr_keyword(self.kind()->Ident_0@)) || self.kind() is LParen),
            r == type_start(self.lexes(), self.pos as int),
    {
        match self.peek() {
            TokenKind::Ident(s) => !is_expr_keyword_exec(s),
            TokenKind::LParen => true,
            _ => false,
        }
    }

    fn is_app_arg_start(&self) -> (r: bool)
        requires
            self.wf(),
        ensures
            r == (self.kind() is IntLit || self.kind() is StringLit || self.kind() is InterpolatedString
                || self.kind() is True || self.kind() is False || self.kind() is LParen || (self.kind() is Ident
                && !is_keyword(self.kind()->Ident_0@))),
            r == app_arg_start(self.lexes(), self.pos as int),
    {
        match self.peek() {
            TokenKind::IntLit(_) | TokenKind::StringLit(_) | TokenKind::InterpolatedString(_)
            | TokenKind::True | TokenKind::False | TokenKind::LParen => true,
            TokenKind::Ident(s) => !is_keyword_exec(s),
            _ => false,
        }
    }

    fn is_pattern_arg_start(&self) -> (r: bool)
        requires
            self.wf(),
        ensures
            r == (self.kind() is IntLit || self.kind() is Underscore || self.kind() is LParen || (
            self.kind() is Ident && !is_keyword(self.kind()->Ident_0@))),
            r == pattern_arg_start(self.lexes(), self.pos as int),
    {
        match self.peek() {
            TokenKind::IntLit(_) | TokenKind::Underscore | TokenKind::LParen => true,
            TokenKind::Ident(s) => !is_keyword_exec(s),
            _ => false,
        }
    }

    fn parse_expr(&mut self) -> (r: LustcResult<Expr>)
        requires
            old(self).wf(),
        ensures
            final(self).stepped(old(self)),
            r is Ok ==> final(self).pos > old(self).pos,
            r matches Err(e) ==> e is ParseError,
            parsed(r, final(self).pos as int, expr_at(old(self).lexes(), old(self).pos as int, old(self).cap@)),
        decreases old(self).cap@, old(self).tokens@.len() - old(self).pos, 30nat,
    {
        self.skip_newlines_only();
        if self.check(&TokenKind::If) {
            self.parse_if()
        } else if self.check(&TokenKind::Let) {
            self.parse_let()
        } else if self.check(&TokenKind::Match) {
            self.parse_match()
        } else if self.check(&TokenKind::Do) {
            self.parse_do()
        } else if self.check(&TokenKind::Fun) {
            self.parse_lambda()
        } else {
            self.parse_or()
        }
    }

    fn parse_or(&mut self) -> (r: LustcResult<Expr>)
        requires
            old(self).wf(),
        ensures
            final(self).stepped(old(self)),
            r is Ok ==> final(self).pos > old(self).pos,
            r matches Err(e) ==> e is ParseError,
            parsed(r, final(self).pos as int, or_at(old(self).lexes(), old(self).pos as int, old(self).cap@)),
        decreases old(self).cap@, old(self).tokens@.len() - old(self).pos, 28nat,
    {
        let ghost ls = self.lexes();
        let ghost cap = self.cap@;
        let mut lhs = self.parse_and()?;
        while self.check(&TokenKind::Or)
            invariant
                self.stepped(old(self)),
                self.pos > old(self).pos,
                ls == self.lexes(),
                cap == self.cap@,
                or_at(ls, old(self).pos as int, cap) == or_rest(ls, self.pos as int, lhs@, cap),
            decreases self.tokens@.len() - self.pos,
        {
            self.advance();
            let rhs = self.parse_and()?;
            lhs = Expr::BinOp { op: BinOp::Or, lhs: Box::new(lhs), rhs: Box::new(rhs) };
        }
        Ok(lhs)
    }

    fn parse_and(&mut self) -> (r: LustcResult<Expr>)
        requires
            old(self).wf(),
        ensures
            final(self).stepped(old(self)),
            r is Ok ==> final(self).pos > old(self).pos,
            r matches Err(e) ==> e is ParseError,
            parsed(r, final(self).pos as int, and_at(old(self).lexes(), old(self).pos as int, old(self).cap@)),
        decreases old(self).cap@, old(self).tokens@.len() - old(self).pos, 27nat,
    {
        let ghost ls = self.lexes();
        let ghost cap = self.cap@;
        let mut lhs = self.parse_comparison()?;
        while self.check(&TokenKind::And)
            invariant
                self.stepped(old(self)),
                self.pos > old(self).pos,
                ls == self.lexes(),
                cap == self.cap@,
                and_at(ls, old(self).pos as int, cap) == and_rest(ls, self.pos as int, lhs@, cap),
            decreases self.tokens@.len() - self.pos,
        {
            self.advance();
            let rhs = self.parse_comparison()?;
            lhs = Expr::BinOp { op: BinOp::And, lhs: Box::new(lhs), rhs: Box::new(rhs) };
        }
        Ok(lhs)
    }

    fn parse_comparison(&mut self) -> (r: LustcResult<Expr>)
        requires
            old(self).wf(),
        ensures
            final(self).stepped(old(self)),
            r is Ok ==> final(self).pos > old(self).pos,
            r matches Err(e) ==> e is ParseError,
            parsed(r, final(self).pos as int, comparison_at(old(self).lexes(), old(self).pos as int, old(self).cap@)),
        decreases old(self).cap@, old(self).tokens@.len() - old(self).pos, 26nat,
    {
        let lhs = self.parse_add()?;
        let op = match self.peek() {
            TokenKind::EqEq => BinOp::Eq,
            TokenKind::Ne => BinOp::Ne,
            TokenKind::Lt => BinOp::Lt,
            TokenKind::Le => BinOp::Le,
            TokenKind::Gt => BinOp::Gt,
            TokenKind::Ge => BinOp::Ge,
            _ => return Ok(lhs),
        };
        self.advance();
        let rhs = self.parse_add()?;
        Ok(Expr::BinOp { op, lhs: Box::new(lhs), rhs: Box::new(rhs) })
    }

    fn parse_add(&mut self) -> (r: LustcResult<Expr>)
        requires
            old(self).wf(),
        ensures
            final(self).stepped(old(self)),
            r is Ok ==> final(self).pos > old(self).pos,
            r matches Err(e) ==> e is ParseError,
            parsed(r, final(self).pos as int, add_at(old(self).lexes(), old(self).pos as int, old(self).cap@)),
        decreases old(self).cap@, old(self).tokens@.len() - old(self).pos, 25nat,
    {
        let ghost ls = self.lexes();
        let ghost cap = self.cap@;
        let mut lhs = self.parse_mul()?;
        loop
            invariant
                self.stepped(old(self)),
                self.pos > old(self).pos,
                ls == self.lexes(),
                cap == self.cap@,
                add_at(ls, old(self).pos as int, cap) == add_rest(ls, self.pos as int, lhs@, cap),
            ensures
                additive_op(ls[self.pos as int].0) is None,
            decreases self.tokens@.len() - self.pos,
        {
            let op = match self.peek() {
                TokenKind::Plus => BinOp::Add,
                TokenKind::Minus => BinOp::Sub,
                _ => break,
            };
            self.advance();
            let rhs = self.parse_mul()?;
            lhs = Expr::BinOp { op, lhs: Box::new(lhs), rhs: Box::new(rhs) };
        }
        Ok(lhs)
    }

    fn parse_mul(&mut self) -> (r: LustcResult<Expr>)
        requires
            old(self).wf(),
        ensures
            final(self).stepped(old(self)),
            r is Ok ==> final(self).pos > old(self).pos,
            r matches Err(e) ==> e is ParseError,
            parsed(r, final(self).pos as int, mul_at(old(self).lexes(), old(self).pos as int, old(self).cap@)),
        decreases old(self).cap@, old(self).tokens@.len() - old(self).pos, 24nat,
    {
        let ghost ls = self.lexes();
        let ghost cap = self.cap@;
        let mut lhs = self.parse_unary()?;
        loop
            invariant
                self.stepped(old(self)),
                self.pos > old(self).pos,
                ls == self.lexes(),
                cap == self.cap@,
                mul_at(ls, old(self).pos as int, cap) == mul_rest(ls, self.pos as int, lhs@, cap),
            ensures
                multiplicative_op(ls[self.pos as int].0) is None,
            decreases self.tokens@.len() - self.pos,
        {
            let op = match self.peek() {
                TokenKind::Star => BinOp::Mul,
                TokenKind::Slash => BinOp::Div,
                TokenKind::Percent => BinOp::Mod,
                _ => break,
            };
            self.advance();
            let rhs = self.parse_unary()?;
            lhs = Expr::BinOp { op, lhs: Box::new(lhs), rhs: Box::new(rhs) };
        }
        Ok(lhs)
    }

    fn parse_unary(&mut self) -> (r: LustcResult<Expr>)
        requires
            old(self).wf(),
        ensures
            final(self).stepped(old(self)),
            r is Ok ==> final(self).pos > old(self).pos,
            r matches Err(e) ==> e is ParseError,
            parsed(r, final(self).pos as int, unary_at(old(self).lexes(), old(self).pos as int, old(self).cap@)),
        decreases old(self).cap@, old(self).tokens@.len() - old(self).pos, 23nat,
    {
        if self.check(&TokenKind::Not) {
            self.advance();
            let operand = self.parse_unary()?;
            Ok(Expr::UnaryOp { op: UnaryOp::Not, operand: Box::new(operand) })
        } else if self.check(&TokenKind::Minus) {
            self.advance();
            let operand = self.parse_unary()?;
            Ok(Expr::UnaryOp { op: UnaryOp::Neg, operand: Box::new(operand) })
        } else {
            self.parse_app()
        }
    }

    fn parse_app(&mut self) -> (r: LustcResult<Expr>)
        requires
            old(self).wf(),
        ensures
            final(self).stepped(old(self)),
            r is Ok ==> final(self).pos > old(self).pos,
            r matches Err(e) ==> e is ParseError,
            parsed(r, final(self).pos as int, app_at(old(self).lexes(), old(self).pos as int, old(self).cap@)),
        decreases old(self).cap@, old(self).tokens@.len() - old(self).pos, 22nat,
    {
        let ghost ls = self.lexes();
        let ghost cap = self.cap@;
        let mut func = self.parse_atom()?;
        while self.is_app_arg_start()
            invariant
                self.stepped(old(self)),
                self.pos > old(self).pos,
                ls == self.lexes(),
                cap == self.cap@,
                app_at(ls, old(self).pos as int, cap) == app_rest(ls, self.pos as int, func@, cap),
            decreases self.tokens@.len() - self.pos,
        {
            let arg = self.parse_atom()?;
            func = Expr::FunApp { func: Box::new(func), arg: Box::new(arg) };
        }
        Ok(func)
    }

    #[verifier::spinoff_prover]
    #[verifier::rlimit(50)]
    fn parse_atom(&mut self) -> (r: LustcResult<Expr>)
        requires
            old(self).wf(),
        ensures
            final(self).stepped(old(self)),
            r is Ok ==> final(self).pos > old(self).pos,
            r matches Err(e) ==> e is ParseError,
            parsed(r, final(self).pos as int, atom_at(old(self).lexes(), old(self).pos as int, old(self).cap@)),
        decreases old(self).cap@, old(self).tokens@.len() - old(self).pos, 21nat,
    {
        match self.peek() {
            TokenKind::IntLit(n) => {
                let n = *n;
                self.advance();
                return Ok(Expr::IntLit(n));
            },
            TokenKind::StringLit(s) => {
                let s = copy_string(s);
                self.advance();
                return Ok(Expr::StringLit(s));
            },
            TokenKind::InterpolatedString(content) => {
                let content = copy_string(content);
                proof {
                    assert(payload_len(self.tokens@[self.pos as int]) < self.cap@);
                }
                self.advance();
                return self.parse_interpolated_string(&content);
            },
            TokenKind::True => {
                self.advance();
                return Ok(Expr::BoolLit(true));
            },
            TokenKind::False => {
                self.advance();
                return Ok(Expr::BoolLit(false));
            },
            _ => {},
        }
        if self.is_ident() {
            return self.parse_var();
        }
        if self.check(&TokenKind::LParen) {
            self.advance();
            return self.parse_paren_expr();
        }
        Err(self.error_here("expected expression, found "))
    }

    /// A variable: an identifier, and the dotted names after it.
    fn parse_var(&mut self) -> (r: LustcResult<Expr>)
        requires
            old(self).wf(),
            old(self).kind() is Ident,
        ensures
            final(self).stepped(old(self)),
            r is Ok ==> final(self).pos > old(self).pos,
            r matches Err(e) ==> e is ParseError,
            parsed(r, final(self).pos as int, var_at(old(self).lexes(), old(self).pos as int)),
    {
        let ghost ls = self.lexes();
        let ghost p0 = self.pos as int;
        let span = self.peek_span();
        let name = self.parse_ident()?;
        let ghost j0 = self.pos as int;
        let mut qualified = name;
        while self.check(&TokenKind::Dot)
            invariant
                self.stepped(old(self)),
                self.pos > old(self).pos,
                ls == self.lexes(),
                p0 == old(self).pos,
                0 <= p0 < ls.len(),
                ls[p0].0 is Ident,
                span == ls[p0].1,
                j0 == next(ls, p0),
                var_dotted_rest(ls, j0, ls[p0].0->Ident_0) == var_dotted_rest(
                    ls,
                    self.pos as int,
                    qualified@,
                ),
            decreases self.tokens@.len() - self.pos,
        {
            let ghost q0 = qualified@;
            self.advance();
            let num = match self.peek() {
                TokenKind::IntLit(n) => Some(*n),
                _ => None,
            };
            match num {
                Some(n) => {
                    self.advance();
                    push_char(&mut qualified, '.');
                    crate::text::push_decimal(&mut qualified, n);
                    assert(qualified@ =~= q0 + seq!['.'] + crate::text::decimal(n as nat));
                },
                None => {
                    let part = self.parse_ident()?;
                    push_char(&mut qualified, '.');
                    qualified.append(part.as_str());
                    assert(qualified@ =~= q0 + seq!['.'] + part@);
                },
            }
        }
        Ok(Expr::Var(qualified, span))
    }

    /// What follows an opening parenthesis: `)`, an expression and `)`, or
    /// the elements of a tuple.
    fn parse_paren_expr(&mut self) -> (r: LustcResult<Expr>)
        requires
            old(self).wf(),
        ensures
            final(self).stepped(old(self)),
            r is Ok ==> final(self).pos > old(self).pos,
            r matches Err(e) ==> e is ParseError,
            parsed(r, final(self).pos as int, paren_expr_at(old(self).lexes(), old(self).pos as int, old(self).cap@)),
        decreases old(self).cap@, old(self).tokens@.len() - old(self).pos, 32nat,
    {
        let ghost ls = self.lexes();
        let ghost cap = self.cap@;
        if self.check(&TokenKind::RParen) {
            let span = self.peek_span();
            self.advance();
            let mut unit = String::new();
            unit.append("()");
            return Ok(Expr::Var(unit, span));
        }
        let expr = self.parse_expr()?;
        if self.check(&TokenKind::Comma) {
            let mut elements: Vec<Expr> = Vec::new();
            elements.push(expr);
            proof {
                crate::ast::lemma_exprs_model_push(seq![], expr);
                assert(seq![expr] =~= seq![].push(expr));
            }
            while self.check(&TokenKind::Comma)
                invariant
                    self.stepped(old(self)),
                    self.pos > old(self).pos,
                    ls == self.lexes(),
                    cap == self.cap@,
                    paren_expr_at(ls, old(self).pos as int, cap) == tuple_rest(
                        ls,
                        self.pos as int,
                        exprs_model(elements@),
                        cap,
                    ),
                decreases self.tokens@.len() - self.pos,
            {
                self.advance();
                let e = self.parse_expr()?;
                proof {
                    crate::ast::lemma_exprs_model_push(elements@, e);
                }
                elements.push(e);
            }
            self.expect(&TokenKind::RParen)?;
            Ok(Expr::Tuple(elements))
        } else {
            self.expect(&TokenKind::RParen)?;
            Ok(Expr::Paren(Box::new(expr)))
        }
    }

    #[verifier::spinoff_prover]
    #[verifier::rlimit(50)]
    fn parse_interpolated_string(&mut self, content: &String) -> (r: LustcResult<Expr>)
        requires
            old(self).wf(),
            content@.len() < old(self).cap@,
        ensures
            final(self).stepped(old(self)),
            final(self).pos == old(self).pos,
            r matches Err(e) ==> e is ParseError,
            parsed(
                r,
                final(self).pos as int,
                interp_rest(
                    old(self).lexes(),
                    old(self).pos as int,
                    content@,
                    0,
                    seq![],
                    seq![],
                    old(self).cap@,
                ),
            ),
        decreases old(self).cap@, old(self).tokens@.len() - old(self).pos, 20nat,
    {
        let ghost ls = self.lexes();
        let ghost cap = self.cap@;
        let ghost p0 = self.pos as int;
        let ghost c = content@;
        let chars = crate::text::chars_of(content.as_str());
        let mut parts: Vec<StringInterpPart> = Vec::new();
        let mut literal = String::new();
        let mut i: usize = 0;
        assert(parts_model(parts@) =~= seq![]);
        assert(literal@ =~= seq![]);
        while i < chars.len()
            invariant
                self.wf(),
                self.tokens@ == old(self).tokens@,
                self.pos == old(self).pos,
                self.errors@ == old(self).errors@,
                self.cap@ == old(self).cap@,
                chars@.len() < self.cap@,
                chars@ == content@,
                c == content@,
                ls == self.lexes(),
                cap == self.cap@,
                p0 == self.pos,
                i <= chars@.len() + 1,
                interp_rest(ls, p0, c, 0, seq![], seq![], cap) == interp_rest(
                    ls,
                    p0,
                    c,
                    i as int,
                    literal@,
                    parts_model(parts@),
                    cap,
                ),
            decreases chars.len() + 1 - i,
        {
            let ghost lit0 = literal@;
            let ghost parts0 = parts_model(parts@);
            if chars[i] == '{' {
                if literal.as_str().unicode_len() > 0 {
                    let mut lit = String::new();
                    std::mem::swap(&mut lit, &mut literal);
                    proof {
                        crate::ast::lemma_parts_model_push(parts@, StringInterpPart::Literal(lit));
                    }
                    parts.push(StringInterpPart::Literal(lit));
                }
                assert(parts_model(parts@) == crate::grammar::flush(parts0, lit0));
                i += 1;
                let start = i;
                let mut expr_str = String::new();
                let mut depth: usize = 1;
                proof {
                    crate::grammar::lemma_hole_end(c, start as int, 1);
                }
                while i < chars.len() && depth > 0
                    invariant_except_break
                        depth >= 1,
                        hole_end(c, i as int, depth as nat) == hole_end(c, start as int, 1),
                    invariant
                        1 <= start <= i <= chars@.len(),
                        chars@.len() < old(self).cap@,
                        old(self).cap@ <= usize::MAX / 8 + 1,
                        chars@ == c,
                        expr_str@ == c.subrange(start as int, i as int),
                        depth <= i + 1,
                    ensures
                        i == hole_end(c, start as int, 1),
                        expr_str@ == c.subrange(start as int, i as int),
                    decreases chars.len() - i,
                {
                    if chars[i] == '{' {
                        depth += 1;
                    } else if chars[i] == '}' {
                        depth -= 1;
                        if depth == 0 {
                            break;
                        }
                    }
                    push_char(&mut expr_str, chars[i]);
                    i += 1;
                    assert(expr_str@ =~= c.subrange(start as int, i as int));
                }
                i += 1;
                let expr = self.parse_hole(&expr_str)?;
                proof {
                    crate::ast::lemma_parts_model_push(parts@, StringInterpPart::Expr(expr));
                }
                parts.push(StringInterpPart::Expr(expr));
                literal = String::new();
                assert(literal@ =~= seq![]);
            } else {
                push_char(&mut literal, chars[i]);
                i += 1;
            }
        }
        let ghost lit_end = literal@;
        let ghost parts_end = parts_model(parts@);
        if literal.as_str().unicode_len() > 0 {
            proof {
                crate::ast::lemma_parts_model_push(parts@, StringInterpPart::Literal(literal));
            }
            parts.push(StringInterpPart::Literal(literal));
        }
        assert(parts_model(parts@) == crate::grammar::flush(parts_end, lit_end));
        Ok(Expr::StringInterpolation(parts))
    }

    /// Lexes and parses the text of one hole of an interpolated string.
    fn parse_hole(&self, text: &String) -> (r: LustcResult<Expr>)
        requires
            self.wf(),
            text@.len() + 1 < self.cap@,
        ensures
            r matches Err(e) ==> e is ParseError,
            match hole_at(self.lexes(), self.pos as int, text@, self.cap@) {
                Ok(ex) => r matches Ok(x) && x@ == ex,
                Err((m, sp, _)) => r matches Err(e) && is_parse_error(e, m, sp),
            },
        decreases self.cap@, self.tokens@.len() - self.pos, 19nat,
    {
        let ghost h = text@;
        let ghost sub_cap = (text@.len() + 1) as nat;
        let mut sub_lexer = Lexer::new(text.as_str());
        let lexed_r = sub_lexer.tokenize();
        proof {
            crate::lexer::lemma_tokenize_lexed(h, lexed_r);
        }
        let sub_tokens = match lexed_r {
            Ok(ts) => ts,
            Err(e) => {
                let mut msg = String::new();
                msg.append("error in interpolated expression: ");
                let text = e.to_display_string();
                msg.append(text.as_str());
                return Err(CompilerError::ParseError { msg, span: self.peek_span() });
            },
        };
        let mut sub_parser = Parser::with_cap(sub_tokens, Ghost(sub_cap));
        match sub_parser.parse_single_expr() {
            Ok(e) => Ok(e),
            Err(e) => {
                let mut msg = String::new();
                msg.append("error in interpolated expression: ");
                let text = e.to_display_string();
                msg.append(text.as_str());
                Err(CompilerError::ParseError { msg, span: self.peek_span() })
            },
        }
    }

    fn parse_if(&mut self) -> (r: LustcResult<Expr>)
        requires
            old(self).wf(),
            old(self).kind() is If,
        ensures
            final(self).stepped(old(self)),
            r is Ok ==> final(self).pos > old(self).pos,
            r matches Err(e) ==> e is ParseError,
            parsed(r, final(self).pos as int, if_at(old(self).lexes(), old(self).pos as int, old(self).cap@)),
        decreases old(self).cap@, old(self).tokens@.len() - old(self).pos, 29nat,
    {
        self.expect(&TokenKind::If)?;
        self.skip_newlines_only();
        let cond = self.parse_expr()?;
        self.skip_newlines_only();
        self.expect(&TokenKind::Then)?;
        self.skip_newlines_only();
        let then_branch = self.parse_expr()?;
        self.skip_newlines_only();
        self.expect(&TokenKind::Else)?;
        self.skip_newlines_only();
        let else_branch = self.parse_expr()?;
        Ok(
            Expr::If {
                cond: Box::new(cond),
                then_branch: Box::new(then_branch),
                else_branch: Box::new(else_branch),
            },
        )
    }

    fn parse_let(&mut self) -> (r: LustcResult<Expr>)
        requires
            old(self).wf(),
            old(self).kind() is Let,
        ensures
            final(self).stepped(old(self)),
            r is Ok ==> final(self).pos > old(self).pos,
            r matches Err(e) ==> e is ParseError,
            parsed(r, final(self).pos as int, let_at(old(self).lexes(), old(self).pos as int, old(self).cap@)),
        decreases old(self).cap@, old(self).tokens@.len() - old(self).pos, 29nat,
    {
        self.expect(&TokenKind::Let)?;
        let name = self.parse_ident()?;
        let ty = if self.check(&TokenKind::Colon) {
            self.advance();
            Some(self.parse_type()?)
        } else {
            None
        };
        self.expect(&TokenKind::ColonEq)?;
        self.skip_newlines_only();
        let value = self.parse_expr()?;
        self.skip_newlines();
        if self.check(&TokenKind::In) {
            self.advance();
        }
        self.skip_newlines();
        let body = self.parse_expr()?;
        Ok(Expr::Let { name, ty, value: Box::new(value), body: Box::new(body) })
    }

    fn parse_match(&mut self) -> (r: LustcResult<Expr>)
        requires
            old(self).wf(),
            old(self).kind() is Match,
        ensures
            final(self).stepped(old(self)),
            r is Ok ==> final(self).pos > old(self).pos,
            r matches Err(e) ==> e is ParseError,
            parsed(r, final(self).pos as int, match_at(old(self).lexes(), old(self).pos as int, old(self).cap@)),
        decreases old(self).cap@, old(self).tokens@.len() - old(self).pos, 29nat,
    {
        let ghost ls = self.lexes();
        let ghost cap = self.cap@;
        self.expect(&TokenKind::Match)?;
        let scrutinee = self.parse_expr()?;
        self.skip_newlines_only();
        self.expect(&TokenKind::With)?;
        self.skip_newlines();
        if self.check(&TokenKind::Indent) {
            self.advance();
        }
        let mut arms: Vec<MatchArm> = Vec::new();
        assert(arms_model(arms@) =~= seq![]);
        while self.check(&TokenKind::Pipe)
            invariant
                self.stepped(old(self)),
                self.pos > old(self).pos,
                ls == self.lexes(),
                cap == self.cap@,
                match_at(ls, old(self).pos as int, cap) == match arms_rest(
                    ls,
                    self.pos as int,
                    arms_model(arms@),
                    cap,
                ) {
                    Err(e) => Err(e),
                    Ok((a, k)) => Ok::<_, ParseFailure>(
                        (ExprModel::Match { scrutinee: Box::new(scrutinee@), arms: a }, k),
                    ),
                },
            decreases self.tokens@.len() - self.pos,
        {
            self.advance();
            let pattern = self.parse_pattern()?;
            self.expect(&TokenKind::FatArrow)?;
            self.skip_newlines_only();
            let body = self.parse_expr()?;
            proof {
                crate::ast::lemma_arms_model_push(arms@, MatchArm { pattern, body });
            }
            arms.push(MatchArm { pattern, body });
            self.skip_newlines();
        }
        if self.check(&TokenKind::Dedent) {
            self.advance();
        }
        Ok(Expr::Match { scrutinee: Box::new(scrutinee), arms })
    }

    fn parse_do(&mut self) -> (r: LustcResult<Expr>)
        requires
            old(self).wf(),
            old(self).kind() is Do,
        ensures
            final(self).stepped(old(self)),
            r is Ok ==> final(self).pos > old(self).pos,
            r matches Err(e) ==> e is ParseError,
            parsed(r, final(self).pos as int, do_at(old(self).lexes(), old(self).pos as int, old(self).cap@)),
        decreases old(self).cap@, old(self).tokens@.len() - old(self).pos, 29nat,
    {
        let ghost ls = self.lexes();
        let ghost cap = self.cap@;
        self.expect(&TokenKind::Do)?;
        self.skip_newlines();
        if self.check(&TokenKind::Indent) {
            self.advance();
        }
        let mut stmts: Vec<DoStatement> = Vec::new();
        assert(stmts_model(stmts@) =~= seq![]);
        loop
            invariant_except_break
                do_at(ls, old(self).pos as int, cap) == match stmts_rest(
                    ls,
                    self.pos as int,
                    stmts_model(stmts@),
                    cap,
                ) {
                    Err(e) => Err(e),
                    Ok((s, k)) => Ok::<_, ParseFailure>((ExprModel::Do(s), k)),
                },
            invariant
                self.stepped(old(self)),
                self.pos > old(self).pos,
                ls == self.lexes(),
                cap == self.cap@,
            ensures
                block_end(ls, self.pos as int),
                do_at(ls, old(self).pos as int, cap) == Ok::<_, ParseFailure>(
                    (
                        ExprModel::Do(stmts_model(stmts@)),
                        if crate::grammar::at(ls, self.pos as int, TokenKind::Dedent) {
                            next(ls, self.pos as int)
                        } else {
                            self.pos as int
                        },
                    ),
                ),
            decreases self.tokens@.len() - self.pos,
        {
            let ghost j = self.pos as int;
            self.skip_newlines_only();
            if self.is_at_end() || self.check(&TokenKind::Dedent) || self.is_decl_start() {
                break;
            }
            if self.check(&TokenKind::Let) {
                self.advance();
                let name = self.parse_ident()?;
                if self.check(&TokenKind::Colon) {
                    self.advance();
                    let _ty = self.parse_type()?;
                }
                if self.check(&TokenKind::LeftArrow) {
                    self.advance();
                } else {
                    self.expect(&TokenKind::ColonEq)?;
                }
                self.skip_newlines_only();
                let value = self.parse_expr()?;
                proof {
                    crate::ast::lemma_stmts_model_push(stmts@, DoStatement::Let(name, value));
                }
                stmts.push(DoStatement::Let(name, value));
            } else {
                let expr = self.parse_expr()?;
                proof {
                    crate::ast::lemma_stmts_model_push(stmts@, DoStatement::Expr(expr));
                }
                stmts.push(DoStatement::Expr(expr));
            }
            self.skip_newlines();
        }
        if self.check(&TokenKind::Dedent) {
            self.advance();
        }
        Ok(Expr::Do(stmts))
    }

    #[verifier::spinoff_prover]
    #[verifier::rlimit(50)]
    fn parse_lambda(&mut self) -> (r: LustcResult<Expr>)
        requires
            old(self).wf(),
            old(self).kind() is Fun,
        ensures
            final(self).stepped(old(self)),
            r is Ok ==> final(self).pos > old(self).pos,
            r matches Err(e) ==> e is ParseError,
            parsed(r, final(self).pos as int, lambda_at(old(self).lexes(), old(self).pos as int, old(self).cap@)),
        decreases old(self).cap@, old(self).tokens@.len() - old(self).pos, 29nat,
    {
        let ghost ls = self.lexes();
        let ghost cap = self.cap@;
        self.expect(&TokenKind::Fun)?;
        let ghost j1 = self.pos as int;
        let mut params: Vec<(String, Option<Type>)> = Vec::new();
        assert(params@.map_values(|p: (String, Option<Type>)| (p.0@, opt_type_model(p.1))) =~= seq![]);
        while !self.check(&TokenKind::FatArrow)
            invariant
                self.stepped(old(self)),
                self.pos > old(self).pos,
                ls == self.lexes(),
                cap == self.cap@,
                lambda_at(ls, old(self).pos as int, cap) == match lambda_params_rest(ls, j1, seq![]) {
                    Err(e) => Err(e),
                    Ok((ps, k1)) => lambda_body_at(ls, old(self).pos as int, ps, k1, cap),
                },
                lambda_params_rest(ls, j1, seq![]) == lambda_params_rest(
                    ls,
                    self.pos as int,
                    params@.map_values(|p: (String, Option<Type>)| (p.0@, opt_type_model(p.1))),
                ),
            decreases self.tokens@.len() - self.pos,
        {
            let ghost acc0 = params@;
            if self.check(&TokenKind::LParen) {
                self.advance();
                let name = self.parse_ident()?;
                let ty = if self.check(&TokenKind::Colon) {
                    self.advance();
                    Some(self.parse_type()?)
                } else {
                    None
                };
                self.expect(&TokenKind::RParen)?;
                params.push((name, ty));
            } else {
                let name = self.parse_ident()?;
                params.push((name, None));
            }
            assert(params@.map_values(|p: (String, Option<Type>)| (p.0@, opt_type_model(p.1)))
                =~= acc0.map_values(|p: (String, Option<Type>)| (p.0@, opt_type_model(p.1))).push(
                (params@.last().0@, opt_type_model(params@.last().1)),
            ));
        }
        self.expect(&TokenKind::FatArrow)?;
        let body = self.parse_expr()?;
        Ok(Expr::Lambda { params, body: Box::new(body) })
    }

    fn parse_pattern(&mut self) -> (r: LustcResult<Pattern>)
        requires
            old(self).wf(),
        ensures
            final(self).stepped(old(self)),
            r is Ok ==> final(self).pos > old(self).pos,
            r matches Err(e) ==> e is ParseError,
            parsed(r, final(self).pos as int, pattern_at(old(self).lexes(), old(self).pos as int)),
        decreases old(self).tokens@.len() - old(self).pos, 3nat,
    {
        let ghost ls = self.lexes();
        match self.peek() {
            TokenKind::IntLit(n) => {
                let n = *n;
                self.advance();
                return Ok(Pattern::IntLit(n));
            },
            TokenKind::Underscore => {
                self.advance();
                return Ok(Pattern::Wildcard);
            },
            _ => {},
        }
        if self.is_ident() {
            let name = self.parse_ident()?;
            if self.check(&TokenKind::Dot) {
                let mut qualified = name;
                let ghost j0 = self.pos as int;
                while self.check(&TokenKind::Dot)
                    invariant
                        self.stepped(old(self)),
                        self.pos > old(self).pos,
                        ls == self.lexes(),
                        dotted_rest(ls, j0, name@) == dotted_rest(ls, self.pos as int, qualified@),
                        ls[old(self).pos as int].0 == Lexeme::Ident(name@),
                        j0 == next(ls, old(self).pos as int),
                        crate::grammar::at(ls, j0, TokenKind::Dot),
                    decreases self.tokens@.len() - self.pos,
                {
                    let ghost q0 = qualified@;
                    self.advance();
                    let part = self.parse_ident()?;
                    push_char(&mut qualified, '.');
                    qualified.append(part.as_str());
                    assert(qualified@ =~= q0 + seq!['.'] + part@);
                }
                let args = self.parse_pattern_args()?;
                return Ok(Pattern::Constructor(qualified, args));
            }
            if self.check(&TokenKind::Plus) {
                self.advance();
                let k = match self.peek() {
                    TokenKind::IntLit(k) => Some(*k),
                    _ => None,
                };
                if let Some(k) = k {
                    self.advance();
                    return Ok(Pattern::Successor(name, k));
                }
            }
            if starts_uppercase(&name) {
                let args = self.parse_pattern_args()?;
                return Ok(Pattern::Constructor(name, args));
            } else {
                return Ok(Pattern::Var(name));
            }
        }
        if self.check(&TokenKind::LParen) {
            self.advance();
            return self.parse_paren_pattern();
        }
        Err(self.error_here("expected pattern, found "))
    }

    fn parse_pattern_args(&mut self) -> (r: LustcResult<Vec<Pattern>>)
        requires
            old(self).wf(),
        ensures
            final(self).stepped(old(self)),
            r matches Err(e) ==> e is ParseError,
            match pattern_args_rest(old(self).lexes(), old(self).pos as int, seq![]) {
                Ok((args, j)) => r matches Ok(v) && patterns_model(v@) == args && final(self).pos == j,
                Err((m, sp, j)) => r matches Err(e) && is_parse_error(e, m, sp) && final(self).pos
                    == j,
            },
        decreases old(self).tokens@.len() - old(self).pos, 2nat,
    {
        let ghost ls = self.lexes();
        let mut args: Vec<Pattern> = Vec::new();
        assert(patterns_model(args@) =~= seq![]);
        while self.is_pattern_arg_start()
            invariant
                self.stepped(old(self)),
                ls == self.lexes(),
                pattern_args_rest(ls, old(self).pos as int, seq![]) == pattern_args_rest(
                    ls,
                    self.pos as int,
                    patterns_model(args@),
                ),
            decreases self.tokens@.len() - self.pos,
        {
            let arg = self.parse_pattern_atom()?;
            proof {
                crate::ast::lemma_patterns_model_push(args@, arg);
            }
            args.push(arg);
        }
        Ok(args)
    }

    fn parse_paren_pattern(&mut self) -> (r: LustcResult<Pattern>)
        requires
            old(self).wf(),
        ensures
            final(self).stepped(old(self)),
            r is Ok ==> final(self).pos > old(self).pos,
            r matches Err(e) ==> e is ParseError,
            parsed(r, final(self).pos as int, paren_pattern_at(old(self).lexes(), old(self).pos as int)),
        decreases old(self).tokens@.len() - old(self).pos, 4nat,
    {
        let ghost ls = self.lexes();
        let pat = self.parse_pattern()?;
        if self.check(&TokenKind::Comma) {
            let mut elements: Vec<Pattern> = Vec::new();
            elements.push(pat);
            proof {
                crate::ast::lemma_patterns_model_push(seq![], pat);
                assert(seq![pat] =~= seq![].push(pat));
            }
            while self.check(&TokenKind::Comma)
                invariant
                    self.stepped(old(self)),
                    self.pos > old(self).pos,
                    ls == self.lexes(),
                    paren_pattern_at(ls, old(self).pos as int) == tuple_pattern_rest(
                        ls,
                        self.pos as int,
                        patterns_model(elements@),
                    ),
                decreases self.tokens@.len() - self.pos,
            {
                self.advance();
                let p = self.parse_pattern()?;
                proof {
                    crate::ast::lemma_patterns_model_push(elements@, p);
                }
                elements.push(p);
            }
            self.expect(&TokenKind::RParen)?;
            Ok(Pattern::Tuple(elements))
        } else {
            self.expect(&TokenKind::RParen)?;
            Ok(pat)
        }
    }

    fn parse_pattern_atom(&mut self) -> (r: LustcResult<Pattern>)
        requires
            old(self).wf(),
        ensures
            final(self).stepped(old(self)),
            r is Ok ==> final(self).pos > old(self).pos,
            r matches Err(e) ==> e is ParseError,
            parsed(r, final(self).pos as int, pattern_atom_at(old(self).lexes(), old(self).pos as int)),
        decreases old(self).tokens@.len() - old(self).pos, 1nat,
    {
        match self.peek() {
            TokenKind::IntLit(n) => {
                let n = *n;
                self.advance();
                return Ok(Pattern::IntLit(n));
            },
            TokenKind::Underscore => {
                self.advance();
                return Ok(Pattern::Wildcard);
            },
            _ => {},
        }
        if self.is_ident() {
            let name = self.parse_ident()?;
            if starts_uppercase(&name) {
                let v: Vec<Pattern> = Vec::new();
                assert(patterns_model(v@) =~= seq![]);
                return Ok(Pattern::Constructor(name, v));
            } else {
                return Ok(Pattern::Var(name));
            }
        }
        if self.check(&TokenKind::LParen) {
            self.advance();
            return self.parse_paren_pattern();
        }
        Err(self.error_here("expected pattern atom, found "))
    }

}

/// Whether the first character of `name` is uppercase.
fn starts_uppercase(name: &String) -> (r: bool)
    ensures
        r == (name@.len() > 0 && crate::text::unicode_uppercase(name@[0])),
{
    let chars = crate::text::chars_of(name.as_str());
    chars.len() > 0 && is_uppercase(chars[0])
}

fn is_expr_keyword_exec(s: &String) -> (r: bool)
    ensures
        r == is_expr_keyword(s@),
{
    let t = s.as_str();
    str_is(t, "if") || str_is(t, "then") || str_is(t, "else") || str_is(t, "match") || str_is(
        t,
        "with",
    ) || str_is(t, "do") || str_is(t, "let") || str_is(t, "in") || str_is(t, "fun") || str_is(
        t,
        "where",
    )
}

fn is_keyword_exec(s: &String) -> (r: bool)
    ensures
        r == is_keyword(s@),
{
    let t = s.as_str();
    str_is(t, "def") || str_is(t, "let") || str_is(t, "in") || str_is(t, "if") || str_is(t, "then")
        || str_is(t, "else") || str_is(t, "match") || str_is(t, "with") || str_is(t, "do")
        || str_is(t, "where") || str_is(t, "inductive") || str_is(t, "fun") || str_is(
        t,
        "structure",
    ) || str_is(t, "true") || str_is(t, "false")
}

} // verus!
