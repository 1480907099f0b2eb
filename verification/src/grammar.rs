//! The grammar the parser implements, as spec functions over the lexemes of
//! a token stream. Each function reads from a position and gives the tree it
//! parses with the position after it, or the error it meets with its message,
//! its span and the position the parser stops at (where recovery starts).

use vstd::prelude::*;

use crate::ast::{BinOp, DeclModel, ExprModel, PartModel, PatternModel, StmtModel, TypeModel, UnaryOp};
use crate::error::{span_text, Span};
use crate::lexer::{lexed, Lexeme};
use crate::text::decimal;
use crate::token::{kind_debug, quoted_debug, TokenKind};

verus! {

/// A parse error: its message, its span, and where the parser stopped.
pub type ParseFailure = (Seq<char>, Span, int);

/// A lexeme as the parser's error messages show it (the `Debug` form of its
/// token kind).
pub open spec fn lexeme_debug(l: Lexeme) -> Seq<char> {
    match l {
        Lexeme::Kind(k) => kind_debug(k),
        Lexeme::Ident(s) => "Ident("@ + quoted_debug(s) + seq![')'],
        Lexeme::Str(s) => "StringLit("@ + quoted_debug(s) + seq![')'],
        Lexeme::Interp(s) => "InterpolatedString("@ + quoted_debug(s) + seq![')'],
    }
}

/// Whether the lexeme at `i` is the payload-free kind `k`.
pub open spec fn at(ls: Seq<(Lexeme, Span)>, i: int, k: TokenKind) -> bool {
    ls[i].0 == Lexeme::Kind(k)
}

/// The position after `i` (the last lexeme, `Eof`, is never left).
pub open spec fn next(ls: Seq<(Lexeme, Span)>, i: int) -> int {
    if i < ls.len() - 1 {
        i + 1
    } else {
        i
    }
}

/// `j` lies at or after `i`, inside the stream.
pub open spec fn within(ls: Seq<(Lexeme, Span)>, i: int, j: int) -> bool {
    0 <= i <= j < ls.len()
}

/// `j` lies after `i`, inside the stream. (The grammar's loops and right
/// recursions go on only from such a `j`; a parse that succeeds always moves
/// on, so the other branch is never taken.)
pub open spec fn beyond(ls: Seq<(Lexeme, Span)>, i: int, j: int) -> bool {
    0 <= i < j < ls.len()
}

/// What the grammar gives where a parse would not move on.
pub open spec fn stalled<T>(ls: Seq<(Lexeme, Span)>, i: int) -> Result<T, ParseFailure> {
    Err((seq![], ls[i].1, i))
}

/// The error at `i`: `prefix`, then the lexeme found there.
pub open spec fn error_at(ls: Seq<(Lexeme, Span)>, i: int, prefix: Seq<char>) -> ParseFailure {
    (prefix + lexeme_debug(ls[i].0), ls[i].1, i)
}

/// Expects the payload-free kind `k` at `i`.
pub open spec fn expect_at(ls: Seq<(Lexeme, Span)>, i: int, k: TokenKind) -> Result<
    int,
    ParseFailure,
> {
    if at(ls, i, k) {
        Ok(next(ls, i))
    } else {
        Err(("expected "@ + kind_debug(k) + ", found "@ + lexeme_debug(ls[i].0), ls[i].1, i))
    }
}

/// An identifier at `i`.
pub open spec fn ident_at(ls: Seq<(Lexeme, Span)>, i: int) -> Result<(Seq<char>, int), ParseFailure> {
    match ls[i].0 {
        Lexeme::Ident(n) => Ok((n, next(ls, i))),
        _ => Err(error_at(ls, i, "expected identifier, found "@)),
    }
}

/// `Newline`, `Indent` or `Dedent`.
pub open spec fn is_layout_lexeme(l: Lexeme) -> bool {
    l == Lexeme::Kind(TokenKind::Newline) || l == Lexeme::Kind(TokenKind::Indent) || l
        == Lexeme::Kind(TokenKind::Dedent)
}

/// The position after the layout lexemes from `i` on.
pub open spec fn skip_layout(ls: Seq<(Lexeme, Span)>, i: int) -> int
    decreases ls.len() - i,
{
    if 0 <= i < ls.len() - 1 && is_layout_lexeme(ls[i].0) {
        skip_layout(ls, i + 1)
    } else {
        i
    }
}

/// The position after the `Newline`s from `i` on.
pub open spec fn skip_line_breaks(ls: Seq<(Lexeme, Span)>, i: int) -> int
    decreases ls.len() - i,
{
    if 0 <= i < ls.len() - 1 && at(ls, i, TokenKind::Newline) {
        skip_line_breaks(ls, i + 1)
    } else {
        i
    }
}

/// A lexeme that starts a declaration.
pub open spec fn is_decl_start_lexeme(l: Lexeme) -> bool {
    l == Lexeme::Kind(TokenKind::Def) || l == Lexeme::Kind(TokenKind::Inductive) || l
        == Lexeme::Kind(TokenKind::Structure) || l == Lexeme::Kind(TokenKind::HashEval) || l
        == Lexeme::Kind(TokenKind::Import) || l == Lexeme::Kind(TokenKind::Open) || l
        == Lexeme::Kind(TokenKind::Namespace)
}

/// Where recovery after an error resumes: the next declaration, or the end.
pub open spec fn resync(ls: Seq<(Lexeme, Span)>, i: int) -> int
    decreases ls.len() - i,
{
    if 0 <= i < ls.len() - 1 && !is_decl_start_lexeme(ls[i].0) && !at(ls, i, TokenKind::Eof) {
        resync(ls, i + 1)
    } else {
        i
    }
}

// --- Types ---

/// Whether a type can start at `i`: an identifier that is no expression
/// keyword, or a parenthesis.
pub open spec fn type_start(ls: Seq<(Lexeme, Span)>, i: int) -> bool {
    (ls[i].0 matches Lexeme::Ident(n) && !crate::parser::is_expr_keyword(n)) || at(
        ls,
        i,
        TokenKind::LParen,
    )
}

/// `type := product ('→' type)?`
pub open spec fn type_at(ls: Seq<(Lexeme, Span)>, i: int) -> Result<(TypeModel, int), ParseFailure>
    decreases ls.len() - i, 4nat,
{
    match type_product_at(ls, i) {
        Err(e) => Err(e),
        Ok((lhs, j)) => if at(ls, j, TokenKind::Arrow) {
            if 0 <= i <= j < ls.len() - 1 {
                match type_at(ls, j + 1) {
                    Err(e) => Err(e),
                    Ok((rhs, k)) => Ok((TypeModel::Arrow(Box::new(lhs), Box::new(rhs)), k)),
                }
            } else {
                stalled(ls, i)
            }
        } else {
            Ok((lhs, j))
        },
    }
}

/// `product := app ('×' app)*`, a tuple type when there is a `×`.
pub open spec fn type_product_at(ls: Seq<(Lexeme, Span)>, i: int) -> Result<
    (TypeModel, int),
    ParseFailure,
>
    decreases ls.len() - i, 3nat,
{
    match type_app_at(ls, i) {
        Err(e) => Err(e),
        Ok((first, j)) => if at(ls, j, TokenKind::Times) {
            if within(ls, i, j) {
                product_rest(ls, j, seq![first])
            } else {
                stalled(ls, i)
            }
        } else {
            Ok((first, j))
        },
    }
}

/// The factors of a product type after the first, gathered in `acc`.
pub open spec fn product_rest(ls: Seq<(Lexeme, Span)>, j: int, acc: Seq<TypeModel>) -> Result<
    (TypeModel, int),
    ParseFailure,
>
    decreases ls.len() - j, 2nat,
{
    if at(ls, j, TokenKind::Times) {
        if 0 <= j < ls.len() - 1 {
            match type_app_at(ls, j + 1) {
                Err(e) => Err(e),
                Ok((t, k)) => if beyond(ls, j, k) {
                    product_rest(ls, k, acc.push(t))
                } else {
                    stalled(ls, j)
                },
            }
        } else {
            stalled(ls, j)
        }
    } else {
        Ok((TypeModel::Tuple(acc), j))
    }
}

/// `app := atom atom*`, applied left to right.
pub open spec fn type_app_at(ls: Seq<(Lexeme, Span)>, i: int) -> Result<(TypeModel, int), ParseFailure>
    decreases ls.len() - i, 2nat,
{
    match type_atom_at(ls, i) {
        Err(e) => Err(e),
        Ok((t, j)) => if within(ls, i, j) {
            type_app_rest(ls, j, t)
        } else {
            stalled(ls, i)
        },
    }
}

/// The arguments of a type application after its head `acc`.
pub open spec fn type_app_rest(ls: Seq<(Lexeme, Span)>, j: int, acc: TypeModel) -> Result<
    (TypeModel, int),
    ParseFailure,
>
    decreases ls.len() - j, 1nat,
{
    if type_start(ls, j) {
        match type_atom_at(ls, j) {
            Err(e) => Err(e),
            Ok((a, k)) => if beyond(ls, j, k) {
                type_app_rest(ls, k, TypeModel::App(Box::new(acc), Box::new(a)))
            } else {
                stalled(ls, j)
            },
        }
    } else {
        Ok((acc, j))
    }
}

/// `atom := '(' ')' | '(' type ')' | ident` (`Unit` names the unit type).
pub open spec fn type_atom_at(ls: Seq<(Lexeme, Span)>, i: int) -> Result<(TypeModel, int), ParseFailure>
    decreases ls.len() - i, 0nat,
{
    if at(ls, i, TokenKind::LParen) {
        if 0 <= i < ls.len() - 1 {
            if at(ls, i + 1, TokenKind::RParen) {
                Ok((TypeModel::Unit, next(ls, i + 1)))
            } else {
                match type_at(ls, i + 1) {
                    Err(e) => Err(e),
                    Ok((t, k)) => match expect_at(ls, k, TokenKind::RParen) {
                        Err(e) => Err(e),
                        Ok(m) => Ok((t, m)),
                    },
                }
            }
        } else {
            stalled(ls, i)
        }
    } else if ls[i].0 is Ident {
        let n = ls[i].0->Ident_0;
        if n == "Unit"@ {
            Ok((TypeModel::Unit, next(ls, i)))
        } else {
            Ok((TypeModel::Named(n), next(ls, i)))
        }
    } else {
        Err(error_at(ls, i, "expected type, found "@))
    }
}

// --- Patterns ---

/// Whether a name starts with an uppercase letter (a constructor's name).
pub open spec fn capitalized(n: Seq<char>) -> bool {
    n.len() > 0 && crate::text::unicode_uppercase(n[0])
}

/// Whether a pattern argument can start at `i`.
pub open spec fn pattern_arg_start(ls: Seq<(Lexeme, Span)>, i: int) -> bool {
    ls[i].0 is Kind && ls[i].0->Kind_0 is IntLit || at(ls, i, TokenKind::Underscore) || at(
        ls,
        i,
        TokenKind::LParen,
    ) || (ls[i].0 matches Lexeme::Ident(n) && !crate::parser::is_keyword(n))
}

/// A dotted name continued from `j`: `('.' ident)*` appended to `q`.
pub open spec fn dotted_rest(ls: Seq<(Lexeme, Span)>, j: int, q: Seq<char>) -> Result<
    (Seq<char>, int),
    ParseFailure,
>
    decreases ls.len() - j,
{
    if at(ls, j, TokenKind::Dot) {
        if 0 <= j < ls.len() - 1 {
            match ident_at(ls, j + 1) {
                Err(e) => Err(e),
                Ok((part, k)) => if beyond(ls, j, k) {
                    dotted_rest(ls, k, q + seq!['.'] + part)
                } else {
                    stalled(ls, j)
                },
            }
        } else {
            stalled(ls, j)
        }
    } else {
        Ok((q, j))
    }
}

/// `pattern := int | '_' | name '.' ... args | name '+' int | Name args | name | '(' ... ')'`
pub open spec fn pattern_at(ls: Seq<(Lexeme, Span)>, i: int) -> Result<
    (PatternModel, int),
    ParseFailure,
>
    decreases ls.len() - i, 3nat,
{
    if !(0 <= i < ls.len()) {
        stalled(ls, 0)
    } else if ls[i].0 is Kind && ls[i].0->Kind_0 is IntLit {
        Ok((PatternModel::IntLit(ls[i].0->Kind_0->IntLit_0), next(ls, i)))
    } else if at(ls, i, TokenKind::Underscore) {
        Ok((PatternModel::Wildcard, next(ls, i)))
    } else if ls[i].0 is Ident {
        let name = ls[i].0->Ident_0;
        let j = next(ls, i);
        if at(ls, j, TokenKind::Dot) {
            match dotted_rest(ls, j, name) {
                Err(e) => Err(e),
                Ok((q, k)) => if beyond(ls, i, k) {
                    match pattern_args_rest(ls, k, seq![]) {
                        Err(e) => Err(e),
                        Ok((args, m)) => Ok((PatternModel::Constructor(q, args), m)),
                    }
                } else {
                    stalled(ls, i)
                },
            }
        } else {
            let j2 = if at(ls, j, TokenKind::Plus) {
                next(ls, j)
            } else {
                j
            };
            if at(ls, j, TokenKind::Plus) && ls[j2].0 is Kind && ls[j2].0->Kind_0 is IntLit {
                Ok((PatternModel::Successor(name, ls[j2].0->Kind_0->IntLit_0), next(ls, j2)))
            } else if capitalized(name) {
                if within(ls, i, j2) {
                    match pattern_args_rest(ls, j2, seq![]) {
                        Err(e) => Err(e),
                        Ok((args, m)) => Ok((PatternModel::Constructor(name, args), m)),
                    }
                } else {
                    stalled(ls, i)
                }
            } else {
                Ok((PatternModel::Var(name), j2))
            }
        }
    } else if at(ls, i, TokenKind::LParen) {
        if i < ls.len() - 1 {
            paren_pattern_at(ls, i + 1)
        } else {
            stalled(ls, i)
        }
    } else {
        Err(error_at(ls, i, "expected pattern, found "@))
    }
}

/// The arguments of a constructor pattern, gathered in `acc`.
pub open spec fn pattern_args_rest(ls: Seq<(Lexeme, Span)>, j: int, acc: Seq<PatternModel>) -> Result<
    (Seq<PatternModel>, int),
    ParseFailure,
>
    decreases ls.len() - j, 2nat,
{
    if 0 <= j < ls.len() && pattern_arg_start(ls, j) {
        match pattern_atom_at(ls, j) {
            Err(e) => Err(e),
            Ok((a, k)) => if beyond(ls, j, k) {
                pattern_args_rest(ls, k, acc.push(a))
            } else {
                stalled(ls, j)
            },
        }
    } else {
        Ok((acc, j))
    }
}

/// What follows an opening parenthesis in a pattern: one pattern, or a tuple.
pub open spec fn paren_pattern_at(ls: Seq<(Lexeme, Span)>, i: int) -> Result<
    (PatternModel, int),
    ParseFailure,
>
    decreases ls.len() - i, 4nat,
{
    match pattern_at(ls, i) {
        Err(e) => Err(e),
        Ok((p, j)) => if within(ls, i, j) {
            if at(ls, j, TokenKind::Comma) {
                tuple_pattern_rest(ls, j, seq![p])
            } else {
                match expect_at(ls, j, TokenKind::RParen) {
                    Err(e) => Err(e),
                    Ok(k) => Ok((p, k)),
                }
            }
        } else {
            stalled(ls, i)
        },
    }
}

/// The elements of a tuple pattern after the first, gathered in `acc`.
pub open spec fn tuple_pattern_rest(ls: Seq<(Lexeme, Span)>, j: int, acc: Seq<PatternModel>) -> Result<
    (PatternModel, int),
    ParseFailure,
>
    decreases ls.len() - j, 3nat,
{
    if at(ls, j, TokenKind::Comma) {
        if 0 <= j < ls.len() - 1 {
            match pattern_at(ls, j + 1) {
                Err(e) => Err(e),
                Ok((p, k)) => if beyond(ls, j, k) {
                    tuple_pattern_rest(ls, k, acc.push(p))
                } else {
                    stalled(ls, j)
                },
            }
        } else {
            stalled(ls, j)
        }
    } else {
        match expect_at(ls, j, TokenKind::RParen) {
            Err(e) => Err(e),
            Ok(k) => Ok((PatternModel::Tuple(acc), k)),
        }
    }
}

/// `atom := int | '_' | Name | name | '(' ... ')'`
pub open spec fn pattern_atom_at(ls: Seq<(Lexeme, Span)>, i: int) -> Result<
    (PatternModel, int),
    ParseFailure,
>
    decreases ls.len() - i, 1nat,
{
    if !(0 <= i < ls.len()) {
        stalled(ls, 0)
    } else if ls[i].0 is Kind && ls[i].0->Kind_0 is IntLit {
        Ok((PatternModel::IntLit(ls[i].0->Kind_0->IntLit_0), next(ls, i)))
    } else if at(ls, i, TokenKind::Underscore) {
        Ok((PatternModel::Wildcard, next(ls, i)))
    } else if ls[i].0 is Ident {
        let name = ls[i].0->Ident_0;
        if capitalized(name) {
            Ok((PatternModel::Constructor(name, seq![]), next(ls, i)))
        } else {
            Ok((PatternModel::Var(name), next(ls, i)))
        }
    } else if at(ls, i, TokenKind::LParen) {
        if i < ls.len() - 1 {
            paren_pattern_at(ls, i + 1)
        } else {
            stalled(ls, i)
        }
    } else {
        Err(error_at(ls, i, "expected pattern atom, found "@))
    }
}

// --- Expressions ---

/// Whether an application argument can start at `i`.
pub open spec fn app_arg_start(ls: Seq<(Lexeme, Span)>, i: int) -> bool {
    (ls[i].0 is Kind && ls[i].0->Kind_0 is IntLit) || ls[i].0 is Str || ls[i].0 is Interp || at(
        ls,
        i,
        TokenKind::True,
    ) || at(ls, i, TokenKind::False) || at(ls, i, TokenKind::LParen) || (ls[i].0 matches Lexeme::Ident(
        n,
    ) && !crate::parser::is_keyword(n))
}

/// The comparison operator a lexeme stands for.
pub open spec fn comparison_op(l: Lexeme) -> Option<BinOp> {
    if l == Lexeme::Kind(TokenKind::EqEq) {
        Some(BinOp::Eq)
    } else if l == Lexeme::Kind(TokenKind::Ne) {
        Some(BinOp::Ne)
    } else if l == Lexeme::Kind(TokenKind::Lt) {
        Some(BinOp::Lt)
    } else if l == Lexeme::Kind(TokenKind::Le) {
        Some(BinOp::Le)
    } else if l == Lexeme::Kind(TokenKind::Gt) {
        Some(BinOp::Gt)
    } else if l == Lexeme::Kind(TokenKind::Ge) {
        Some(BinOp::Ge)
    } else {
        None
    }
}

/// The additive operator a lexeme stands for.
pub open spec fn additive_op(l: Lexeme) -> Option<BinOp> {
    if l == Lexeme::Kind(TokenKind::Plus) {
        Some(BinOp::Add)
    } else if l == Lexeme::Kind(TokenKind::Minus) {
        Some(BinOp::Sub)
    } else {
        None
    }
}

/// The multiplicative operator a lexeme stands for.
pub open spec fn multiplicative_op(l: Lexeme) -> Option<BinOp> {
    if l == Lexeme::Kind(TokenKind::Star) {
        Some(BinOp::Mul)
    } else if l == Lexeme::Kind(TokenKind::Slash) {
        Some(BinOp::Div)
    } else if l == Lexeme::Kind(TokenKind::Percent) {
        Some(BinOp::Mod)
    } else {
        None
    }
}

/// A binary operation.
pub open spec fn binary(op: BinOp, lhs: ExprModel, rhs: ExprModel) -> ExprModel {
    ExprModel::BinOp { op, lhs: Box::new(lhs), rhs: Box::new(rhs) }
}

/// A variable name continued from `j`: `('.' (ident | int))*` appended to `q`
/// (a number stands for a tuple field).
pub open spec fn var_dotted_rest(ls: Seq<(Lexeme, Span)>, j: int, q: Seq<char>) -> Result<
    (Seq<char>, int),
    ParseFailure,
>
    decreases ls.len() - j,
{
    if at(ls, j, TokenKind::Dot) {
        if 0 <= j < ls.len() - 1 {
            let j1 = j + 1;
            if ls[j1].0 is Kind && ls[j1].0->Kind_0 is IntLit {
                let n = ls[j1].0->Kind_0->IntLit_0;
                if beyond(ls, j, next(ls, j1)) {
                    var_dotted_rest(ls, next(ls, j1), q + seq!['.'] + decimal(n as nat))
                } else {
                    stalled(ls, j)
                }
            } else {
                match ident_at(ls, j1) {
                    Err(e) => Err(e),
                    Ok((part, k)) => if beyond(ls, j, k) {
                        var_dotted_rest(ls, k, q + seq!['.'] + part)
                    } else {
                        stalled(ls, j)
                    },
                }
            }
        } else {
            stalled(ls, j)
        }
    } else {
        Ok((q, j))
    }
}

/// Where the hole of an interpolated string that is `depth` braces deep at
/// `i` closes: the index of its closing brace, or the end of the text.
pub open spec fn hole_end(c: Seq<char>, i: int, depth: nat) -> int
    decreases c.len() - i,
{
    if i < 0 || i >= c.len() {
        i
    } else if c[i] == '{' {
        hole_end(c, i + 1, depth + 1)
    } else if c[i] == '}' {
        if depth <= 1 {
            i
        } else {
            hole_end(c, i + 1, (depth - 1) as nat)
        }
    } else {
        hole_end(c, i + 1, depth)
    }
}

pub proof fn lemma_hole_end(c: Seq<char>, i: int, depth: nat)
    requires
        0 <= i <= c.len(),
    ensures
        i <= hole_end(c, i, depth) <= c.len(),
    decreases c.len() - i,
{
    if i < c.len() {
        if c[i] == '{' {
            lemma_hole_end(c, i + 1, depth + 1);
        } else if c[i] == '}' {
            if depth > 1 {
                lemma_hole_end(c, i + 1, (depth - 1) as nat);
            }
        } else {
            lemma_hole_end(c, i + 1, depth);
        }
    }
}

/// The message for an error inside a hole of an interpolated string, given
/// that error's one-line rendering.
pub open spec fn hole_error(text: Seq<char>) -> Seq<char> {
    "error in interpolated expression: "@ + text
}

/// The hole `h` of an interpolated string, lexed and parsed as one
/// expression of its own (nested holes get a smaller bound); an error in it
/// is reported at the span of the token at `pos`, where the parser stands.
pub open spec fn hole_at(ls: Seq<(Lexeme, Span)>, pos: int, h: Seq<char>, cap: nat) -> Result<
    ExprModel,
    ParseFailure,
>
    decreases cap, ls.len() - pos, 19nat, 0int,
{
    if !(h.len() + 1 < cap && 0 <= pos < ls.len()) {
        stalled(ls, 0)
    } else {
        match lexed(h) {
            Err((m, sp)) => Err(
                (hole_error("Lex error at "@ + span_text(sp) + ": "@ + m), ls[pos].1, pos),
            ),
            Ok(sub) => match expr_at(sub, 0, (h.len() + 1) as nat) {
                Err((m, sp, _)) => Err(
                    (hole_error("Parse error at "@ + span_text(sp) + ": "@ + m), ls[pos].1, pos),
                ),
                Ok((ex, _)) => Ok(ex),
            },
        }
    }
}

/// The parts so far with the pending literal text added, if there is any.
pub open spec fn flush(parts: Seq<PartModel>, lit: Seq<char>) -> Seq<PartModel> {
    if lit.len() > 0 {
        parts.push(PartModel::Literal(lit))
    } else {
        parts
    }
}

/// `expr := if | let | match | do | fun | or`, after any line breaks.
pub open spec fn expr_at(ls: Seq<(Lexeme, Span)>, i: int, cap: nat) -> Result<
    (ExprModel, int),
    ParseFailure,
>
    decreases cap, ls.len() - i, 30nat, 0int,
{
    let j = skip_line_breaks(ls, i);
    if !within(ls, i, j) {
        stalled(ls, 0)
    } else if at(ls, j, TokenKind::If) {
        if_at(ls, j, cap)
    } else if at(ls, j, TokenKind::Let) {
        let_at(ls, j, cap)
    } else if at(ls, j, TokenKind::Match) {
        match_at(ls, j, cap)
    } else if at(ls, j, TokenKind::Do) {
        do_at(ls, j, cap)
    } else if at(ls, j, TokenKind::Fun) {
        lambda_at(ls, j, cap)
    } else {
        or_at(ls, j, cap)
    }
}

/// `if cond then e1 else e2`, line breaks allowed around each part.
pub open spec fn if_at(ls: Seq<(Lexeme, Span)>, i: int, cap: nat) -> Result<
    (ExprModel, int),
    ParseFailure,
>
    decreases cap, ls.len() - i, 29nat, 0int,
{
    let c1 = skip_line_breaks(ls, next(ls, i));
    if !beyond(ls, i, c1) {
        stalled(ls, i)
    } else {
        match expr_at(ls, c1, cap) {
            Err(e) => Err(e),
            Ok((cond, k1)) => match expect_at(ls, skip_line_breaks(ls, k1), TokenKind::Then) {
                Err(e) => Err(e),
                Ok(j2) => {
                    let c2 = skip_line_breaks(ls, j2);
                    if !beyond(ls, i, c2) {
                        stalled(ls, i)
                    } else {
                        match expr_at(ls, c2, cap) {
                            Err(e) => Err(e),
                            Ok((then_branch, k2)) => match expect_at(
                                ls,
                                skip_line_breaks(ls, k2),
                                TokenKind::Else,
                            ) {
                                Err(e) => Err(e),
                                Ok(j3) => {
                                    let c3 = skip_line_breaks(ls, j3);
                                    if !beyond(ls, i, c3) {
                                        stalled(ls, i)
                                    } else {
                                        match expr_at(ls, c3, cap) {
                                            Err(e) => Err(e),
                                            Ok((else_branch, k3)) => Ok(
                                                (
                                                    ExprModel::If {
                                                        cond: Box::new(cond),
                                                        then_branch: Box::new(then_branch),
                                                        else_branch: Box::new(else_branch),
                                                    },
                                                    k3,
                                                ),
                                            ),
                                        }
                                    }
                                },
                            },
                        }
                    }
                },
            },
        }
    }
}

/// The optional `: type` after a name at `j`.
pub open spec fn type_annotation(ls: Seq<(Lexeme, Span)>, j: int) -> Result<
    (Option<TypeModel>, int),
    ParseFailure,
> {
    if at(ls, j, TokenKind::Colon) {
        match type_at(ls, next(ls, j)) {
            Err(e) => Err(e),
            Ok((t, k)) => Ok((Some(t), k)),
        }
    } else {
        Ok((None, j))
    }
}

/// `let name (: type)? := value (in)? body`
pub open spec fn let_at(ls: Seq<(Lexeme, Span)>, i: int, cap: nat) -> Result<
    (ExprModel, int),
    ParseFailure,
>
    decreases cap, ls.len() - i, 29nat, 0int,
{
    match ident_at(ls, next(ls, i)) {
        Err(e) => Err(e),
        Ok((name, j1)) => match type_annotation(ls, j1) {
            Err(e) => Err(e),
            Ok((ty, j2)) => match expect_at(ls, j2, TokenKind::ColonEq) {
                Err(e) => Err(e),
                Ok(j3) => {
                    let c1 = skip_line_breaks(ls, j3);
                    if !beyond(ls, i, c1) {
                        stalled(ls, i)
                    } else {
                        match expr_at(ls, c1, cap) {
                            Err(e) => Err(e),
                            Ok((value, k1)) => {
                                let k2 = skip_layout(ls, k1);
                                let k3 = if at(ls, k2, TokenKind::In) {
                                    next(ls, k2)
                                } else {
                                    k2
                                };
                                let c2 = skip_layout(ls, k3);
                                if !beyond(ls, i, c2) {
                                    stalled(ls, i)
                                } else {
                                    match expr_at(ls, c2, cap) {
                                        Err(e) => Err(e),
                                        Ok((body, k4)) => Ok(
                                            (
                                                ExprModel::Let {
                                                    name,
                                                    ty,
                                                    value: Box::new(value),
                                                    body: Box::new(body),
                                                },
                                                k4,
                                            ),
                                        ),
                                    }
                                }
                            },
                        }
                    }
                },
            },
        },
    }
}

/// `match scrutinee with (| pattern => body)*`
pub open spec fn match_at(ls: Seq<(Lexeme, Span)>, i: int, cap: nat) -> Result<
    (ExprModel, int),
    ParseFailure,
>
    decreases cap, ls.len() - i, 29nat, 0int,
{
    let c1 = next(ls, i);
    if !beyond(ls, i, c1) {
        stalled(ls, i)
    } else {
        match expr_at(ls, c1, cap) {
            Err(e) => Err(e),
            Ok((scrutinee, k1)) => match expect_at(ls, skip_line_breaks(ls, k1), TokenKind::With) {
                Err(e) => Err(e),
                Ok(j2) => {
                    let j3 = skip_layout(ls, j2);
                    let j4 = if at(ls, j3, TokenKind::Indent) {
                        next(ls, j3)
                    } else {
                        j3
                    };
                    if !beyond(ls, i, j4) {
                        stalled(ls, i)
                    } else {
                        match arms_rest(ls, j4, seq![], cap) {
                            Err(e) => Err(e),
                            Ok((arms, k)) => Ok(
                                (ExprModel::Match { scrutinee: Box::new(scrutinee), arms }, k),
                            ),
                        }
                    }
                },
            },
        }
    }
}

/// The arms of a `match` from `j`, gathered in `acc`; a closing `Dedent` is
/// consumed.
pub open spec fn arms_rest(
    ls: Seq<(Lexeme, Span)>,
    j: int,
    acc: Seq<(PatternModel, ExprModel)>,
    cap: nat,
) -> Result<(Seq<(PatternModel, ExprModel)>, int), ParseFailure>
    decreases cap, ls.len() - j, 31nat, 0int,
{
    if at(ls, j, TokenKind::Pipe) && 0 <= j < ls.len() - 1 {
        match pattern_at(ls, j + 1) {
            Err(e) => Err(e),
            Ok((p, k1)) => match expect_at(ls, k1, TokenKind::FatArrow) {
                Err(e) => Err(e),
                Ok(j2) => {
                    let c = skip_line_breaks(ls, j2);
                    if !beyond(ls, j, c) {
                        stalled(ls, j)
                    } else {
                        match expr_at(ls, c, cap) {
                            Err(e) => Err(e),
                            Ok((body, k2)) => {
                                let k3 = skip_layout(ls, k2);
                                if !beyond(ls, j, k3) {
                                    stalled(ls, j)
                                } else {
                                    arms_rest(ls, k3, acc.push((p, body)), cap)
                                }
                            },
                        }
                    }
                },
            },
        }
    } else if at(ls, j, TokenKind::Dedent) {
        Ok((acc, next(ls, j)))
    } else {
        Ok((acc, j))
    }
}

/// `do` then its statements, each a `let name (: type)? (<- | :=) value` or
/// an expression.
pub open spec fn do_at(ls: Seq<(Lexeme, Span)>, i: int, cap: nat) -> Result<
    (ExprModel, int),
    ParseFailure,
>
    decreases cap, ls.len() - i, 29nat, 0int,
{
    let j1 = skip_layout(ls, next(ls, i));
    let j2 = if at(ls, j1, TokenKind::Indent) {
        next(ls, j1)
    } else {
        j1
    };
    if !beyond(ls, i, j2) {
        stalled(ls, i)
    } else {
        match stmts_rest(ls, j2, seq![], cap) {
            Err(e) => Err(e),
            Ok((stmts, k)) => Ok((ExprModel::Do(stmts), k)),
        }
    }
}

/// What ends a `do` block: the end, a `Dedent`, or a new declaration.
pub open spec fn block_end(ls: Seq<(Lexeme, Span)>, j: int) -> bool {
    at(ls, j, TokenKind::Eof) || at(ls, j, TokenKind::Dedent) || is_decl_start_lexeme(ls[j].0)
}

/// The statements of a `do` block from `j`, gathered in `acc`.
pub open spec fn stmts_rest(ls: Seq<(Lexeme, Span)>, j: int, acc: Seq<StmtModel>, cap: nat) -> Result<
    (Seq<StmtModel>, int),
    ParseFailure,
>
    decreases cap, ls.len() - j, 31nat, 0int,
{
    let j1 = skip_line_breaks(ls, j);
    if !within(ls, j, j1) {
        stalled(ls, 0)
    } else if block_end(ls, j1) {
        if at(ls, j1, TokenKind::Dedent) {
            Ok((acc, next(ls, j1)))
        } else {
            Ok((acc, j1))
        }
    } else if at(ls, j1, TokenKind::Let) {
        match ident_at(ls, next(ls, j1)) {
            Err(e) => Err(e),
            Ok((name, k1)) => match type_annotation(ls, k1) {
                Err(e) => Err(e),
                Ok((_ty, k2)) => {
                    let arrow = if at(ls, k2, TokenKind::LeftArrow) {
                        Ok(next(ls, k2))
                    } else {
                        expect_at(ls, k2, TokenKind::ColonEq)
                    };
                    match arrow {
                        Err(e) => Err(e),
                        Ok(k3) => {
                            let c = skip_line_breaks(ls, k3);
                            if !beyond(ls, j, c) {
                                stalled(ls, j)
                            } else {
                                match expr_at(ls, c, cap) {
                                    Err(e) => Err(e),
                                    Ok((value, k4)) => {
                                        let k5 = skip_layout(ls, k4);
                                        if !beyond(ls, j, k5) {
                                            stalled(ls, j)
                                        } else {
                                            stmts_rest(
                                                ls,
                                                k5,
                                                acc.push(StmtModel::Let(name, value)),
                                                cap,
                                            )
                                        }
                                    },
                                }
                            }
                        },
                    }
                },
            },
        }
    } else {
        match expr_at(ls, j1, cap) {
            Err(e) => Err(e),
            Ok((e, k1)) => {
                let k2 = skip_layout(ls, k1);
                if !beyond(ls, j, k2) {
                    stalled(ls, j)
                } else {
                    stmts_rest(ls, k2, acc.push(StmtModel::Expr(e)), cap)
                }
            },
        }
    }
}

/// `fun params => body`
pub open spec fn lambda_at(ls: Seq<(Lexeme, Span)>, i: int, cap: nat) -> Result<
    (ExprModel, int),
    ParseFailure,
>
    decreases cap, ls.len() - i, 29nat, 0int,
{
    let j1 = next(ls, i);
    if !beyond(ls, i, j1) {
        stalled(ls, i)
    } else {
        match lambda_params_rest(ls, j1, seq![]) {
            Err(e) => Err(e),
            Ok((params, k1)) => lambda_body_at(ls, i, params, k1, cap),
        }
    }
}

/// The `=> body` of a lambda that starts at `i`, its parameters read up to `k1`.
pub open spec fn lambda_body_at(
    ls: Seq<(Lexeme, Span)>,
    i: int,
    params: Seq<(Seq<char>, Option<TypeModel>)>,
    k1: int,
    cap: nat,
) -> Result<(ExprModel, int), ParseFailure>
    decreases cap, ls.len() - i, 28nat, 0int,
{
    match expect_at(ls, k1, TokenKind::FatArrow) {
        Err(e) => Err(e),
        Ok(k2) => if !beyond(ls, i, k2) {
            stalled(ls, i)
        } else {
            match expr_at(ls, k2, cap) {
                Err(e) => Err(e),
                Ok((body, k3)) => Ok((ExprModel::Lambda { params, body: Box::new(body) }, k3)),
            }
        },
    }
}

/// The parameters of a lambda from `j` up to its `=>`: `name` or
/// `(name (: type)?)`.
pub open spec fn lambda_params_rest(
    ls: Seq<(Lexeme, Span)>,
    j: int,
    acc: Seq<(Seq<char>, Option<TypeModel>)>,
) -> Result<(Seq<(Seq<char>, Option<TypeModel>)>, int), ParseFailure>
    decreases ls.len() - j,
{
    if !(0 <= j < ls.len()) {
        stalled(ls, 0)
    } else if at(ls, j, TokenKind::FatArrow) {
        Ok((acc, j))
    } else if at(ls, j, TokenKind::LParen) {
        match ident_at(ls, next(ls, j)) {
            Err(e) => Err(e),
            Ok((name, k1)) => match type_annotation(ls, k1) {
                Err(e) => Err(e),
                Ok((ty, k2)) => match expect_at(ls, k2, TokenKind::RParen) {
                    Err(e) => Err(e),
                    Ok(k3) => if beyond(ls, j, k3) {
                        lambda_params_rest(ls, k3, acc.push((name, ty)))
                    } else {
                        stalled(ls, j)
                    },
                },
            },
        }
    } else {
        match ident_at(ls, j) {
            Err(e) => Err(e),
            Ok((name, k1)) => if beyond(ls, j, k1) {
                lambda_params_rest(ls, k1, acc.push((name, None)))
            } else {
                stalled(ls, j)
            },
        }
    }
}

/// `or := and ('||' and)*`, to the left.
pub open spec fn or_at(ls: Seq<(Lexeme, Span)>, i: int, cap: nat) -> Result<
    (ExprModel, int),
    ParseFailure,
>
    decreases cap, ls.len() - i, 28nat, 0int,
{
    match and_at(ls, i, cap) {
        Err(e) => Err(e),
        Ok((lhs, j)) => if beyond(ls, i, j) {
            or_rest(ls, j, lhs, cap)
        } else {
            stalled(ls, i)
        },
    }
}

/// The operands after the first of a `||` chain, folded to the left into `acc`.
pub open spec fn or_rest(ls: Seq<(Lexeme, Span)>, j: int, acc: ExprModel, cap: nat) -> Result<
    (ExprModel, int),
    ParseFailure,
>
    decreases cap, ls.len() - j, 31nat, 0int,
{
    if at(ls, j, TokenKind::Or) && 0 <= j < ls.len() - 1 {
        match and_at(ls, j + 1, cap) {
            Err(e) => Err(e),
            Ok((rhs, k)) => if beyond(ls, j, k) {
                or_rest(ls, k, binary(BinOp::Or, acc, rhs), cap)
            } else {
                stalled(ls, j)
            },
        }
    } else {
        Ok((acc, j))
    }
}

/// `and := comparison ('&&' comparison)*`, to the left.
pub open spec fn and_at(ls: Seq<(Lexeme, Span)>, i: int, cap: nat) -> Result<
    (ExprModel, int),
    ParseFailure,
>
    decreases cap, ls.len() - i, 27nat, 0int,
{
    match comparison_at(ls, i, cap) {
        Err(e) => Err(e),
        Ok((lhs, j)) => if beyond(ls, i, j) {
            and_rest(ls, j, lhs, cap)
        } else {
            stalled(ls, i)
        },
    }
}

/// The operands after the first of a `&&` chain, folded to the left into `acc`.
pub open spec fn and_rest(ls: Seq<(Lexeme, Span)>, j: int, acc: ExprModel, cap: nat) -> Result<
    (ExprModel, int),
    ParseFailure,
>
    decreases cap, ls.len() - j, 31nat, 0int,
{
    if at(ls, j, TokenKind::And) && 0 <= j < ls.len() - 1 {
        match comparison_at(ls, j + 1, cap) {
            Err(e) => Err(e),
            Ok((rhs, k)) => if beyond(ls, j, k) {
                and_rest(ls, k, binary(BinOp::And, acc, rhs), cap)
            } else {
                stalled(ls, j)
            },
        }
    } else {
        Ok((acc, j))
    }
}

/// `comparison := add (op add)?`: comparisons do not chain.
pub open spec fn comparison_at(ls: Seq<(Lexeme, Span)>, i: int, cap: nat) -> Result<
    (ExprModel, int),
    ParseFailure,
>
    decreases cap, ls.len() - i, 26nat, 0int,
{
    match add_at(ls, i, cap) {
        Err(e) => Err(e),
        Ok((lhs, j)) => match comparison_op(ls[j].0) {
            None => Ok((lhs, j)),
            Some(op) => if 0 <= i <= j < ls.len() - 1 {
                match add_at(ls, j + 1, cap) {
                    Err(e) => Err(e),
                    Ok((rhs, k)) => Ok((binary(op, lhs, rhs), k)),
                }
            } else {
                stalled(ls, i)
            },
        },
    }
}

/// `add := mul (('+' | '-') mul)*`, to the left.
pub open spec fn add_at(ls: Seq<(Lexeme, Span)>, i: int, cap: nat) -> Result<
    (ExprModel, int),
    ParseFailure,
>
    decreases cap, ls.len() - i, 25nat, 0int,
{
    match mul_at(ls, i, cap) {
        Err(e) => Err(e),
        Ok((lhs, j)) => if beyond(ls, i, j) {
            add_rest(ls, j, lhs, cap)
        } else {
            stalled(ls, i)
        },
    }
}

/// The operands after the first of a `+`/`-` chain, folded to the left into `acc`.
pub open spec fn add_rest(ls: Seq<(Lexeme, Span)>, j: int, acc: ExprModel, cap: nat) -> Result<
    (ExprModel, int),
    ParseFailure,
>
    decreases cap, ls.len() - j, 31nat, 0int,
{
    match additive_op(ls[j].0) {
        None => Ok((acc, j)),
        Some(op) => if 0 <= j < ls.len() - 1 {
            match mul_at(ls, j + 1, cap) {
                Err(e) => Err(e),
                Ok((rhs, k)) => if beyond(ls, j, k) {
                    add_rest(ls, k, binary(op, acc, rhs), cap)
                } else {
                    stalled(ls, j)
                },
            }
        } else {
            stalled(ls, j)
        },
    }
}

/// `mul := unary (('*' | '/' | '%') unary)*`, to the left.
pub open spec fn mul_at(ls: Seq<(Lexeme, Span)>, i: int, cap: nat) -> Result<
    (ExprModel, int),
    ParseFailure,
>
    decreases cap, ls.len() - i, 24nat, 0int,
{
    match unary_at(ls, i, cap) {
        Err(e) => Err(e),
        Ok((lhs, j)) => if beyond(ls, i, j) {
            mul_rest(ls, j, lhs, cap)
        } else {
            stalled(ls, i)
        },
    }
}

/// The operands after the first of a `*`/`/`/`%` chain, folded to the left into `acc`.
pub open spec fn mul_rest(ls: Seq<(Lexeme, Span)>, j: int, acc: ExprModel, cap: nat) -> Result<
    (ExprModel, int),
    ParseFailure,
>
    decreases cap, ls.len() - j, 31nat, 0int,
{
    match multiplicative_op(ls[j].0) {
        None => Ok((acc, j)),
        Some(op) => if 0 <= j < ls.len() - 1 {
            match unary_at(ls, j + 1, cap) {
                Err(e) => Err(e),
                Ok((rhs, k)) => if beyond(ls, j, k) {
                    mul_rest(ls, k, binary(op, acc, rhs), cap)
                } else {
                    stalled(ls, j)
                },
            }
        } else {
            stalled(ls, j)
        },
    }
}

/// `unary := '!' unary | '-' unary | app`
pub open spec fn unary_at(ls: Seq<(Lexeme, Span)>, i: int, cap: nat) -> Result<
    (ExprModel, int),
    ParseFailure,
>
    decreases cap, ls.len() - i, 23nat, 0int,
{
    if (at(ls, i, TokenKind::Not) || at(ls, i, TokenKind::Minus)) && 0 <= i < ls.len() - 1 {
        let op = if at(ls, i, TokenKind::Not) {
            UnaryOp::Not
        } else {
            UnaryOp::Neg
        };
        match unary_at(ls, i + 1, cap) {
            Err(e) => Err(e),
            Ok((operand, k)) => Ok((ExprModel::UnaryOp { op, operand: Box::new(operand) }, k)),
        }
    } else {
        app_at(ls, i, cap)
    }
}

/// `app := atom atom*`, applied to the left.
pub open spec fn app_at(ls: Seq<(Lexeme, Span)>, i: int, cap: nat) -> Result<
    (ExprModel, int),
    ParseFailure,
>
    decreases cap, ls.len() - i, 22nat, 0int,
{
    match atom_at(ls, i, cap) {
        Err(e) => Err(e),
        Ok((func, j)) => if beyond(ls, i, j) {
            app_rest(ls, j, func, cap)
        } else {
            stalled(ls, i)
        },
    }
}

/// The arguments after the head `acc` of an application, applied to the left.
pub open spec fn app_rest(ls: Seq<(Lexeme, Span)>, j: int, acc: ExprModel, cap: nat) -> Result<
    (ExprModel, int),
    ParseFailure,
>
    decreases cap, ls.len() - j, 31nat, 0int,
{
    if 0 <= j < ls.len() && app_arg_start(ls, j) {
        match atom_at(ls, j, cap) {
            Err(e) => Err(e),
            Ok((arg, k)) => if beyond(ls, j, k) {
                app_rest(ls, k, ExprModel::FunApp { func: Box::new(acc), arg: Box::new(arg) }, cap)
            } else {
                stalled(ls, j)
            },
        }
    } else {
        Ok((acc, j))
    }
}

/// `atom := int | string | s!"..." | true | false | name('.' ...)* | '(' ')'
/// | '(' expr ')' | '(' expr (',' expr)+ ')'`
pub open spec fn atom_at(ls: Seq<(Lexeme, Span)>, i: int, cap: nat) -> Result<
    (ExprModel, int),
    ParseFailure,
>
    decreases cap, ls.len() - i, 21nat, 0int,
{
    if !(0 <= i < ls.len()) {
        stalled(ls, 0)
    } else if ls[i].0 is Kind && ls[i].0->Kind_0 is IntLit {
        Ok((ExprModel::IntLit(ls[i].0->Kind_0->IntLit_0), next(ls, i)))
    } else if ls[i].0 is Str {
        Ok((ExprModel::StringLit(ls[i].0->Str_0), next(ls, i)))
    } else if ls[i].0 is Interp {
        if ls[i].0->Interp_0.len() < cap {
            interp_rest(ls, next(ls, i), ls[i].0->Interp_0, 0, seq![], seq![], cap)
        } else {
            stalled(ls, i)
        }
    } else if at(ls, i, TokenKind::True) {
        Ok((ExprModel::BoolLit(true), next(ls, i)))
    } else if at(ls, i, TokenKind::False) {
        Ok((ExprModel::BoolLit(false), next(ls, i)))
    } else if ls[i].0 is Ident {
        var_at(ls, i)
    } else if at(ls, i, TokenKind::LParen) && i < ls.len() - 1 {
        paren_expr_at(ls, i + 1, cap)
    } else {
        Err(error_at(ls, i, "expected expression, found "@))
    }
}

/// A variable at `i` (an identifier), dotted names included, with the span
/// of its first identifier.
pub open spec fn var_at(ls: Seq<(Lexeme, Span)>, i: int) -> Result<(ExprModel, int), ParseFailure> {
    match var_dotted_rest(ls, next(ls, i), ls[i].0->Ident_0) {
        Err(e) => Err(e),
        Ok((q, k)) => Ok((ExprModel::Var(q, ls[i].1), k)),
    }
}

/// What follows an opening parenthesis in an expression at `j`: `)` (the
/// unit value, a variable named `()`), a parenthesized expression, or a
/// tuple.
pub open spec fn paren_expr_at(ls: Seq<(Lexeme, Span)>, j: int, cap: nat) -> Result<
    (ExprModel, int),
    ParseFailure,
>
    decreases cap, ls.len() - j, 31nat, 0int,
{
    if !(0 <= j < ls.len()) {
        stalled(ls, 0)
    } else if at(ls, j, TokenKind::RParen) {
        Ok((ExprModel::Var("()"@, ls[j].1), next(ls, j)))
    } else {
        match expr_at(ls, j, cap) {
            Err(e) => Err(e),
            Ok((e, k)) => if at(ls, k, TokenKind::Comma) {
                if beyond(ls, j, k) {
                    tuple_rest(ls, k, seq![e], cap)
                } else {
                    stalled(ls, j)
                }
            } else {
                match expect_at(ls, k, TokenKind::RParen) {
                    Err(err) => Err(err),
                    Ok(m) => Ok((ExprModel::Paren(Box::new(e)), m)),
                }
            },
        }
    }
}

/// The elements of a tuple after the first, gathered in `acc`.
pub open spec fn tuple_rest(ls: Seq<(Lexeme, Span)>, j: int, acc: Seq<ExprModel>, cap: nat) -> Result<
    (ExprModel, int),
    ParseFailure,
>
    decreases cap, ls.len() - j, 31nat, 0int,
{
    if at(ls, j, TokenKind::Comma) && 0 <= j < ls.len() - 1 {
        match expr_at(ls, j + 1, cap) {
            Err(e) => Err(e),
            Ok((e, k)) => if beyond(ls, j, k) {
                tuple_rest(ls, k, acc.push(e), cap)
            } else {
                stalled(ls, j)
            },
        }
    } else {
        match expect_at(ls, j, TokenKind::RParen) {
            Err(e) => Err(e),
            Ok(m) => Ok((ExprModel::Tuple(acc), m)),
        }
    }
}

/// The parts of an interpolated string's text `c` from index `k`: literal
/// text, pending in `lit`, and holes `{expr}`, each lexed and parsed on its
/// own; `pos` is where the parser stands (after the string's token), whose
/// span an error in a hole takes.
pub open spec fn interp_rest(
    ls: Seq<(Lexeme, Span)>,
    pos: int,
    c: Seq<char>,
    k: int,
    lit: Seq<char>,
    parts: Seq<PartModel>,
    cap: nat,
) -> Result<(ExprModel, int), ParseFailure>
    decreases cap, ls.len() - pos, 20nat, c.len() + 1 - k,
{
    if !(0 <= k && 0 <= pos < ls.len() && c.len() < cap) {
        stalled(ls, 0)
    } else if k >= c.len() {
        Ok((ExprModel::StringInterpolation(flush(parts, lit)), pos))
    } else if c[k] == '{' {
        proof {
            lemma_hole_end(c, k + 1, 1);
        }
        let e = hole_end(c, k + 1, 1);
        match hole_at(ls, pos, c.subrange(k + 1, e), cap) {
            Err(err) => Err(err),
            Ok(ex) => interp_rest(
                ls,
                pos,
                c,
                e + 1,
                seq![],
                flush(parts, lit).push(PartModel::Expr(ex)),
                cap,
            ),
        }
    } else {
        interp_rest(ls, pos, c, k + 1, lit.push(c[k]), parts, cap)
    }
}

// --- Declarations ---

/// The `(name : type)` parameters of a definition from `j`, gathered in `acc`.
pub open spec fn def_params_rest(
    ls: Seq<(Lexeme, Span)>,
    j: int,
    acc: Seq<(Seq<char>, TypeModel)>,
) -> Result<(Seq<(Seq<char>, TypeModel)>, int), ParseFailure>
    decreases ls.len() - j,
{
    if at(ls, j, TokenKind::LParen) && 0 <= j < ls.len() - 1 {
        match ident_at(ls, j + 1) {
            Err(e) => Err(e),
            Ok((name, k1)) => match expect_at(ls, k1, TokenKind::Colon) {
                Err(e) => Err(e),
                Ok(k2) => match type_at(ls, k2) {
                    Err(e) => Err(e),
                    Ok((ty, k3)) => match expect_at(ls, k3, TokenKind::RParen) {
                        Err(e) => Err(e),
                        Ok(k4) => if beyond(ls, j, k4) {
                            def_params_rest(ls, k4, acc.push((name, ty)))
                        } else {
                            stalled(ls, j)
                        },
                    },
                },
            },
        }
    } else {
        Ok((acc, j))
    }
}

/// The bindings of a `where` block from `j`, one `name := value` a line,
/// gathered in `acc`; the block ends at the end, a `Dedent`, a declaration
/// or another `where`.
pub open spec fn where_bindings_rest(
    ls: Seq<(Lexeme, Span)>,
    j: int,
    acc: Seq<(Seq<char>, ExprModel)>,
    cap: nat,
) -> Result<(Seq<(Seq<char>, ExprModel)>, int), ParseFailure>
    decreases ls.len() - j,
{
    let j1 = skip_line_breaks(ls, j);
    if !within(ls, j, j1) {
        stalled(ls, 0)
    } else if block_end(ls, j1) || at(ls, j1, TokenKind::Where) {
        Ok((acc, j1))
    } else {
        match ident_at(ls, j1) {
            Err(e) => Err(e),
            Ok((name, k1)) => match expect_at(ls, k1, TokenKind::ColonEq) {
                Err(e) => Err(e),
                Ok(k2) => match expr_at(ls, skip_line_breaks(ls, k2), cap) {
                    Err(e) => Err(e),
                    Ok((value, k3)) => {
                        let k4 = skip_line_breaks(ls, k3);
                        if beyond(ls, j, k4) {
                            where_bindings_rest(ls, k4, acc.push((name, value)), cap)
                        } else {
                            stalled(ls, j)
                        }
                    },
                },
            },
        }
    }
}

/// The `where` blocks after a definition's body from `j`, their bindings
/// gathered in `acc`.
pub open spec fn where_rest(
    ls: Seq<(Lexeme, Span)>,
    j: int,
    acc: Seq<(Seq<char>, ExprModel)>,
    cap: nat,
) -> Result<(Seq<(Seq<char>, ExprModel)>, int), ParseFailure>
    decreases ls.len() - j,
{
    let j1 = skip_layout(ls, j);
    if !within(ls, j, j1) {
        stalled(ls, 0)
    } else if !at(ls, j1, TokenKind::Where) {
        Ok((acc, j1))
    } else {
        match where_bindings_rest(ls, block_start(ls, next(ls, j1)), acc, cap) {
            Err(e) => Err(e),
            Ok((bs, k)) => if beyond(ls, j, block_close(ls, k)) {
                where_rest(ls, block_close(ls, k), bs, cap)
            } else {
                stalled(ls, j)
            },
        }
    }
}

/// `body` under the bindings `bs`, the first binding outermost.
pub open spec fn wrap_lets(bs: Seq<(Seq<char>, ExprModel)>, body: ExprModel) -> ExprModel
    decreases bs.len(),
{
    if bs.len() == 0 {
        body
    } else {
        wrap_lets(
            bs.drop_last(),
            ExprModel::Let {
                name: bs.last().0,
                ty: None,
                value: Box::new(bs.last().1),
                body: Box::new(body),
            },
        )
    }
}

/// The patterns of one case of a pattern-matching definition from `j` up to
/// its `=>`, separated by optional commas.
pub open spec fn case_patterns_rest(ls: Seq<(Lexeme, Span)>, j: int, acc: Seq<PatternModel>) -> Result<
    (Seq<PatternModel>, int),
    ParseFailure,
>
    decreases ls.len() - j,
{
    if !(0 <= j < ls.len()) {
        stalled(ls, 0)
    } else if at(ls, j, TokenKind::FatArrow) {
        Ok((acc, j))
    } else {
        match pattern_at(ls, j) {
            Err(e) => Err(e),
            Ok((p, k)) => {
                let k2 = if at(ls, k, TokenKind::Comma) {
                    next(ls, k)
                } else {
                    k
                };
                if beyond(ls, j, k2) {
                    case_patterns_rest(ls, k2, acc.push(p))
                } else {
                    stalled(ls, j)
                }
            },
        }
    }
}

/// The cases `| patterns => body` of a pattern-matching definition from
/// `j`, gathered in `acc`; a closing `Dedent` is consumed.
pub open spec fn cases_rest(
    ls: Seq<(Lexeme, Span)>,
    j: int,
    acc: Seq<(Seq<PatternModel>, ExprModel)>,
    cap: nat,
) -> Result<(Seq<(Seq<PatternModel>, ExprModel)>, int), ParseFailure>
    decreases ls.len() - j,
{
    if at(ls, j, TokenKind::Pipe) && 0 <= j < ls.len() - 1 {
        match case_patterns_rest(ls, j + 1, seq![]) {
            Err(e) => Err(e),
            Ok((ps, k1)) => match expect_at(ls, k1, TokenKind::FatArrow) {
                Err(e) => Err(e),
                Ok(k2) => match expr_at(ls, skip_layout(ls, k2), cap) {
                    Err(e) => Err(e),
                    Ok((body, k3)) => {
                        let k4 = skip_layout(ls, k3);
                        if beyond(ls, j, k4) {
                            cases_rest(ls, k4, acc.push((ps, body)), cap)
                        } else {
                            stalled(ls, j)
                        }
                    },
                },
            },
        }
    } else if at(ls, j, TokenKind::Dedent) {
        Ok((acc, next(ls, j)))
    } else {
        Ok((acc, j))
    }
}

/// `def name params (: type)? := body where...`, or with pattern cases.
pub open spec fn def_at(ls: Seq<(Lexeme, Span)>, i: int, cap: nat) -> Result<
    (DeclModel, int),
    ParseFailure,
> {
    match ident_at(ls, next(ls, i)) {
        Err(e) => Err(e),
        Ok((name, j1)) => match def_params_rest(ls, j1, seq![]) {
            Err(e) => Err(e),
            Ok((params, j2)) => match type_annotation(ls, j2) {
                Err(e) => Err(e),
                Ok((return_type, j3)) => {
                    let j4 = skip_layout(ls, j3);
                    if at(ls, j4, TokenKind::ColonEq) {
                        match expr_at(ls, skip_layout(ls, next(ls, j4)), cap) {
                            Err(e) => Err(e),
                            Ok((body, k1)) => match where_rest(ls, k1, seq![], cap) {
                                Err(e) => Err(e),
                                Ok((bs, k2)) => Ok(
                                    (
                                        DeclModel::FunDef {
                                            name,
                                            params,
                                            return_type,
                                            body: wrap_lets(bs, body),
                                        },
                                        k2,
                                    ),
                                ),
                            },
                        }
                    } else if at(ls, j4, TokenKind::Newline) || at(ls, j4, TokenKind::Indent) || at(
                        ls,
                        j4,
                        TokenKind::Pipe,
                    ) {
                        let j5 = skip_layout(ls, j4);
                        let j6 = if at(ls, j5, TokenKind::Indent) {
                            next(ls, j5)
                        } else {
                            j5
                        };
                        match cases_rest(ls, j6, seq![], cap) {
                            Err(e) => Err(e),
                            Ok((cases, k)) => Ok(
                                (DeclModel::FunDefMatch { name, params, return_type, cases }, k),
                            ),
                        }
                    } else {
                        Err(error_at(ls, j4, "expected ':=' or pattern cases after def, found "@))
                    }
                },
            },
        },
    }
}

/// The field types of a constructor after its `:`: the types of a chain
/// `T1 → T2 → ... → R` but the last, which is the type constructed.
pub open spec fn ctor_fields_rest(ls: Seq<(Lexeme, Span)>, j: int, acc: Seq<TypeModel>) -> Result<
    (Seq<TypeModel>, int),
    ParseFailure,
>
    decreases ls.len() - j,
{
    match type_app_at(ls, j) {
        Err(e) => Err(e),
        Ok((t, k1)) => if at(ls, k1, TokenKind::Arrow) && 0 <= k1 < ls.len() - 1 {
            match type_app_at(ls, k1 + 1) {
                Err(e) => Err(e),
                Ok((t2, k2)) => if !at(ls, k2, TokenKind::Arrow) {
                    Ok((acc.push(t), k2))
                } else if 0 <= j < k2 < ls.len() - 1 {
                    ctor_fields_rest(ls, k2 + 1, acc.push(t).push(t2))
                } else {
                    stalled(ls, j)
                },
            }
        } else {
            Ok((acc, k1))
        },
    }
}

/// The constructors `| name (: fields)?` of an inductive type from `j`.
pub open spec fn ctors_rest(
    ls: Seq<(Lexeme, Span)>,
    j: int,
    acc: Seq<(Seq<char>, Seq<TypeModel>)>,
) -> Result<(Seq<(Seq<char>, Seq<TypeModel>)>, int), ParseFailure>
    decreases ls.len() - j,
{
    if at(ls, j, TokenKind::Pipe) && 0 <= j < ls.len() - 1 {
        match ident_at(ls, j + 1) {
            Err(e) => Err(e),
            Ok((name, k1)) => {
                let fields = if at(ls, k1, TokenKind::Colon) {
                    ctor_fields_rest(ls, next(ls, k1), seq![])
                } else {
                    Ok((seq![], k1))
                };
                match fields {
                    Err(e) => Err(e),
                    Ok((fs, k2)) => {
                        let k3 = skip_layout(ls, k2);
                        if beyond(ls, j, k3) {
                            ctors_rest(ls, k3, acc.push((name, fs)))
                        } else {
                            stalled(ls, j)
                        }
                    },
                }
            },
        }
    } else {
        Ok((acc, j))
    }
}

/// The start of a block after `where`: layout skipped, an `Indent` consumed.
pub open spec fn block_start(ls: Seq<(Lexeme, Span)>, j: int) -> int {
    let j1 = skip_layout(ls, j);
    if at(ls, j1, TokenKind::Indent) {
        next(ls, j1)
    } else {
        j1
    }
}

/// Past a closing `Dedent`, if there is one at `k`.
pub open spec fn block_close(ls: Seq<(Lexeme, Span)>, k: int) -> int {
    if at(ls, k, TokenKind::Dedent) {
        next(ls, k)
    } else {
        k
    }
}

/// `inductive Name where | ctor ...`
pub open spec fn inductive_at(ls: Seq<(Lexeme, Span)>, i: int) -> Result<
    (DeclModel, int),
    ParseFailure,
> {
    match ident_at(ls, next(ls, i)) {
        Err(e) => Err(e),
        Ok((name, j1)) => match expect_at(ls, j1, TokenKind::Where) {
            Err(e) => Err(e),
            Ok(j2) => match ctors_rest(ls, block_start(ls, j2), seq![]) {
                Err(e) => Err(e),
                Ok((constructors, k)) => Ok(
                    (DeclModel::InductiveDef { name, constructors }, block_close(ls, k)),
                ),
            },
        },
    }
}

/// The fields `name : type` of a structure from `j`, one a line.
pub open spec fn struct_fields_rest(
    ls: Seq<(Lexeme, Span)>,
    j: int,
    acc: Seq<(Seq<char>, TypeModel)>,
) -> Result<(Seq<(Seq<char>, TypeModel)>, int), ParseFailure>
    decreases ls.len() - j,
{
    let j1 = skip_line_breaks(ls, j);
    if !within(ls, j, j1) {
        stalled(ls, 0)
    } else if block_end(ls, j1) {
        Ok((acc, j1))
    } else {
        match ident_at(ls, j1) {
            Err(e) => Err(e),
            Ok((name, k1)) => match expect_at(ls, k1, TokenKind::Colon) {
                Err(e) => Err(e),
                Ok(k2) => match type_at(ls, k2) {
                    Err(e) => Err(e),
                    Ok((ty, k3)) => {
                        let k4 = skip_line_breaks(ls, k3);
                        if beyond(ls, j, k4) {
                            struct_fields_rest(ls, k4, acc.push((name, ty)))
                        } else {
                            stalled(ls, j)
                        }
                    },
                },
            },
        }
    }
}

/// `structure Name where fields`
pub open spec fn structure_at(ls: Seq<(Lexeme, Span)>, i: int) -> Result<
    (DeclModel, int),
    ParseFailure,
> {
    match ident_at(ls, next(ls, i)) {
        Err(e) => Err(e),
        Ok((name, j1)) => match expect_at(ls, j1, TokenKind::Where) {
            Err(e) => Err(e),
            Ok(j2) => match struct_fields_rest(ls, block_start(ls, j2), seq![]) {
                Err(e) => Err(e),
                Ok((fields, k)) => Ok((DeclModel::StructDef { name, fields }, block_close(ls, k))),
            },
        },
    }
}

/// The further segments `.name` of a module path from `j`.
pub open spec fn path_rest(ls: Seq<(Lexeme, Span)>, j: int, acc: Seq<Seq<char>>) -> Result<
    (Seq<Seq<char>>, int),
    ParseFailure,
>
    decreases ls.len() - j,
{
    if at(ls, j, TokenKind::Dot) && 0 <= j < ls.len() - 1 {
        match ident_at(ls, j + 1) {
            Err(e) => Err(e),
            Ok((part, k)) => if beyond(ls, j, k) {
                path_rest(ls, k, acc.push(part))
            } else {
                stalled(ls, j)
            },
        }
    } else {
        Ok((acc, j))
    }
}

/// The module path after the keyword at `i` (`import` or `open`).
pub open spec fn path_at(ls: Seq<(Lexeme, Span)>, i: int) -> Result<
    (Seq<Seq<char>>, int),
    ParseFailure,
> {
    match ident_at(ls, next(ls, i)) {
        Err(e) => Err(e),
        Ok((first, j)) => path_rest(ls, j, seq![first]),
    }
}

/// The message for a namespace closed by the wrong name.
pub open spec fn end_mismatch(name: Seq<char>, found: Seq<char>) -> Seq<char> {
    "expected `end "@ + name + "`, found `end "@ + found + seq!['`']
}

/// The message for a namespace left open at the end of the input.
pub open spec fn end_missing(name: Seq<char>) -> Seq<char> {
    "expected `end "@ + name + "`, found end of input"@
}

/// `decl := def | inductive | structure | #eval | import | open | namespace`
pub open spec fn decl_at(ls: Seq<(Lexeme, Span)>, i: int, cap: nat) -> Result<
    (DeclModel, int),
    ParseFailure,
>
    decreases ls.len() - i, 40nat,
{
    if !(0 <= i < ls.len()) {
        stalled(ls, 0)
    } else if at(ls, i, TokenKind::Def) {
        def_at(ls, i, cap)
    } else if at(ls, i, TokenKind::Inductive) {
        inductive_at(ls, i)
    } else if at(ls, i, TokenKind::Structure) {
        structure_at(ls, i)
    } else if at(ls, i, TokenKind::HashEval) {
        match expr_at(ls, skip_layout(ls, next(ls, i)), cap) {
            Err(e) => Err(e),
            Ok((e, k)) => Ok((DeclModel::Eval(e), k)),
        }
    } else if at(ls, i, TokenKind::Import) {
        match path_at(ls, i) {
            Err(e) => Err(e),
            Ok((path, k)) => Ok((DeclModel::Import(path), k)),
        }
    } else if at(ls, i, TokenKind::Open) {
        match path_at(ls, i) {
            Err(e) => Err(e),
            Ok((path, k)) => Ok((DeclModel::Open(path), k)),
        }
    } else if at(ls, i, TokenKind::Namespace) {
        namespace_at(ls, i, cap)
    } else {
        Err(error_at(ls, i, "expected declaration, found "@))
    }
}

/// `namespace Name decls end Name`
pub open spec fn namespace_at(ls: Seq<(Lexeme, Span)>, i: int, cap: nat) -> Result<
    (DeclModel, int),
    ParseFailure,
>
    decreases ls.len() - i, 39nat,
{
    match ident_at(ls, next(ls, i)) {
        Err(e) => Err(e),
        Ok((name, j)) => if beyond(ls, i, j) {
            match namespace_rest(ls, j, name, seq![], cap) {
                Err(e) => Err(e),
                Ok((decls, k)) => Ok((DeclModel::Namespace { name, decls }, k)),
            }
        } else {
            stalled(ls, i)
        },
    }
}

/// The declarations of namespace `name` from `j` up to its `end name`.
pub open spec fn namespace_rest(
    ls: Seq<(Lexeme, Span)>,
    j: int,
    name: Seq<char>,
    acc: Seq<DeclModel>,
    cap: nat,
) -> Result<(Seq<DeclModel>, int), ParseFailure>
    decreases ls.len() - j, 41nat,
{
    let j1 = skip_layout(ls, j);
    if !within(ls, j, j1) {
        stalled(ls, 0)
    } else if at(ls, j1, TokenKind::End) && j1 < ls.len() - 1 {
        let k = j1 + 1;
        match ident_at(ls, k) {
            Err(e) => Err(e),
            Ok((found, k2)) => if found != name {
                Err((end_mismatch(name, found), ls[k].1, k2))
            } else {
                Ok((acc, k2))
            },
        }
    } else if at(ls, j1, TokenKind::Eof) {
        Err((end_missing(name), ls[j1].1, j1))
    } else {
        match decl_at(ls, j1, cap) {
            Err(e) => Err(e),
            Ok((d, k)) => if beyond(ls, j, k) {
                namespace_rest(ls, k, name, acc.push(d), cap)
            } else {
                stalled(ls, j)
            },
        }
    }
}

/// A whole program from `j`: the declarations read and the errors met
/// (message and span); after an error, reading resumes at the next
/// declaration.
pub open spec fn program_rest(
    ls: Seq<(Lexeme, Span)>,
    j: int,
    decls: Seq<DeclModel>,
    errors: Seq<(Seq<char>, Span)>,
    cap: nat,
) -> (Seq<DeclModel>, Seq<(Seq<char>, Span)>)
    decreases ls.len() - j,
{
    if !(0 <= j < ls.len()) || at(ls, j, TokenKind::Eof) {
        (decls, errors)
    } else {
        match decl_at(ls, j, cap) {
            Ok((d, k)) => {
                let k2 = skip_layout(ls, k);
                if beyond(ls, j, k2) {
                    program_rest(ls, k2, decls.push(d), errors, cap)
                } else {
                    (decls, errors)
                }
            },
            Err((m, sp, k)) => {
                let k2 = skip_layout(ls, resync(ls, k));
                if beyond(ls, j, k2) {
                    program_rest(ls, k2, decls, errors.push((m, sp)), cap)
                } else {
                    (decls, errors)
                }
            },
        }
    }
}

/// A whole program from `i`, after any layout at its start.
#[verifier::opaque]
pub open spec fn program_at(ls: Seq<(Lexeme, Span)>, i: int, cap: nat) -> (
    Seq<DeclModel>,
    Seq<(Seq<char>, Span)>,
) {
    program_rest(ls, skip_layout(ls, i), seq![], seq![], cap)
}

// --- Infix operators between two literals ---

/// The binary operator that an infix lexeme stands for, at whichever
/// precedence level the grammar reads it.
pub open spec fn infix_op(l: Lexeme) -> Option<BinOp> {
    if l == Lexeme::Kind(TokenKind::Or) {
        Some(BinOp::Or)
    } else if l == Lexeme::Kind(TokenKind::And) {
        Some(BinOp::And)
    } else if comparison_op(l) is Some {
        comparison_op(l)
    } else if additive_op(l) is Some {
        additive_op(l)
    } else {
        multiplicative_op(l)
    }
}

/// Each infix lexeme stands for its own operator: two lexemes that stand for
/// the same operator are the same lexeme.
pub proof fn law_infix_ops_distinct(l1: Lexeme, l2: Lexeme)
    requires
        infix_op(l1) is Some,
        infix_op(l1) == infix_op(l2),
    ensures
        l1 == l2,
{
}

/// An integer literal at `i` followed by a lexeme that starts no argument is
/// read as that literal, up to `i + 1`.
proof fn lemma_literal_operand(ls: Seq<(Lexeme, Span)>, i: int, n: u64, cap: nat)
    requires
        0 <= i,
        i + 1 < ls.len(),
        ls[i].0 == Lexeme::Kind(TokenKind::IntLit(n)),
        !app_arg_start(ls, i + 1),
    ensures
        unary_at(ls, i, cap) == Ok::<(ExprModel, int), ParseFailure>((ExprModel::IntLit(n), i + 1)),
{
    assert(atom_at(ls, i, cap) == Ok::<(ExprModel, int), ParseFailure>((ExprModel::IntLit(n), i + 1)));
    assert(app_rest(ls, i + 1, ExprModel::IntLit(n), cap) == Ok::<(ExprModel, int), ParseFailure>(
        (ExprModel::IntLit(n), i + 1),
    ));
    assert(app_at(ls, i, cap) == Ok::<(ExprModel, int), ParseFailure>((ExprModel::IntLit(n), i + 1)));
}

/// `a op b` between two integer literals, followed by the end of the input,
/// is read as `op` applied to the two literals.
pub proof fn lemma_infix_between_literals(ls: Seq<(Lexeme, Span)>, a: u64, b: u64, cap: nat)
    requires
        ls.len() == 4,
        ls[0].0 == Lexeme::Kind(TokenKind::IntLit(a)),
        infix_op(ls[1].0) is Some,
        ls[2].0 == Lexeme::Kind(TokenKind::IntLit(b)),
        ls[3].0 == Lexeme::Kind(TokenKind::Eof),
    ensures
        expr_at(ls, 0, cap) == Ok::<(ExprModel, int), ParseFailure>(
            (binary(infix_op(ls[1].0).unwrap(), ExprModel::IntLit(a), ExprModel::IntLit(b)), 3),
        ),
{
    let l = ls[1].0;
    let op = infix_op(l).unwrap();
    let ea = ExprModel::IntLit(a);
    let eb = ExprModel::IntLit(b);
    let e = binary(op, ea, eb);
    assert(!app_arg_start(ls, 1));
    assert(!app_arg_start(ls, 3));
    lemma_literal_operand(ls, 0, a, cap);
    lemma_literal_operand(ls, 2, b, cap);
    assert(mul_rest(ls, 3, eb, cap) == Ok::<(ExprModel, int), ParseFailure>((eb, 3)));
    assert(mul_at(ls, 2, cap) == Ok::<(ExprModel, int), ParseFailure>((eb, 3)));
    assert(add_rest(ls, 3, eb, cap) == Ok::<(ExprModel, int), ParseFailure>((eb, 3)));
    assert(add_at(ls, 2, cap) == Ok::<(ExprModel, int), ParseFailure>((eb, 3)));
    assert(comparison_at(ls, 2, cap) == Ok::<(ExprModel, int), ParseFailure>((eb, 3)));
    assert(and_rest(ls, 3, e, cap) == Ok::<(ExprModel, int), ParseFailure>((e, 3)));
    assert(or_rest(ls, 3, e, cap) == Ok::<(ExprModel, int), ParseFailure>((e, 3)));
    if multiplicative_op(l) is Some {
        assert(mul_rest(ls, 3, e, cap) == Ok::<(ExprModel, int), ParseFailure>((e, 3)));
        assert(mul_rest(ls, 1, ea, cap) == Ok::<(ExprModel, int), ParseFailure>((e, 3)));
        assert(mul_at(ls, 0, cap) == Ok::<(ExprModel, int), ParseFailure>((e, 3)));
        assert(add_rest(ls, 3, e, cap) == Ok::<(ExprModel, int), ParseFailure>((e, 3)));
        assert(add_at(ls, 0, cap) == Ok::<(ExprModel, int), ParseFailure>((e, 3)));
        assert(comparison_at(ls, 0, cap) == Ok::<(ExprModel, int), ParseFailure>((e, 3)));
        assert(and_at(ls, 0, cap) == Ok::<(ExprModel, int), ParseFailure>((e, 3)));
    } else {
        assert(mul_rest(ls, 1, ea, cap) == Ok::<(ExprModel, int), ParseFailure>((ea, 1)));
        assert(mul_at(ls, 0, cap) == Ok::<(ExprModel, int), ParseFailure>((ea, 1)));
        if additive_op(l) is Some {
            assert(add_rest(ls, 3, e, cap) == Ok::<(ExprModel, int), ParseFailure>((e, 3)));
            assert(add_rest(ls, 1, ea, cap) == Ok::<(ExprModel, int), ParseFailure>((e, 3)));
            assert(add_at(ls, 0, cap) == Ok::<(ExprModel, int), ParseFailure>((e, 3)));
            assert(comparison_at(ls, 0, cap) == Ok::<(ExprModel, int), ParseFailure>((e, 3)));
            assert(and_at(ls, 0, cap) == Ok::<(ExprModel, int), ParseFailure>((e, 3)));
        } else {
            assert(add_rest(ls, 1, ea, cap) == Ok::<(ExprModel, int), ParseFailure>((ea, 1)));
            assert(add_at(ls, 0, cap) == Ok::<(ExprModel, int), ParseFailure>((ea, 1)));
            if comparison_op(l) is Some {
                assert(comparison_at(ls, 0, cap) == Ok::<(ExprModel, int), ParseFailure>((e, 3)));
                assert(and_at(ls, 0, cap) == Ok::<(ExprModel, int), ParseFailure>((e, 3)));
            } else {
                assert(comparison_at(ls, 0, cap) == Ok::<(ExprModel, int), ParseFailure>((ea, 1)));
                if l == Lexeme::Kind(TokenKind::And) {
                    assert(and_rest(ls, 1, ea, cap) == Ok::<(ExprModel, int), ParseFailure>((e, 3)));
                    assert(and_at(ls, 0, cap) == Ok::<(ExprModel, int), ParseFailure>((e, 3)));
                } else {
                    assert(and_rest(ls, 1, ea, cap) == Ok::<(ExprModel, int), ParseFailure>((ea, 1)));
                    assert(and_at(ls, 0, cap) == Ok::<(ExprModel, int), ParseFailure>((ea, 1)));
                    assert(and_at(ls, 2, cap) == Ok::<(ExprModel, int), ParseFailure>((eb, 3)));
                    assert(or_rest(ls, 1, ea, cap) == Ok::<(ExprModel, int), ParseFailure>((e, 3)));
                }
            }
        }
    }
    assert(or_at(ls, 0, cap) == Ok::<(ExprModel, int), ParseFailure>((e, 3)));
    assert(skip_line_breaks(ls, 0) == 0);
}

} // verus!
