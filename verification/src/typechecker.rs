//! Type checking: infers a type for every expression and reports the
//! mismatches it can see.

use vstd::prelude::*;

use crate::ast::{BinOp, Decl, DoStatement, Expr, MatchArm, Pattern, StringInterpPart, Type, UnaryOp};
use crate::error::{CompilerError, Span};
use crate::lexer::digits_value;
use crate::resolver::{last_dot, parses_as_usize, unsigned_digits};
use crate::text::{chars_of, copy_string, push_char};

verus! {

// ---------------------------------------------------------------------------
// Types
// ---------------------------------------------------------------------------

/// The types the checker infers.
#[derive(Debug)]
pub enum Ty {
    Nat,
    Int,
    Bool,
    String,
    Unit,
    Arrow(Box<Ty>, Box<Ty>),
    Tuple(Vec<Ty>),
    List(Box<Ty>),
    Option(Box<Ty>),
    Named(std::string::String),
    /// Unknown type: used when inference cannot determine a type.
    Unknown,
}

/// A type as a mathematical value: names are character sequences.
#[verifier::ext_equal]
pub enum TyModel {
    Nat,
    Int,
    Bool,
    Str,
    Unit,
    Arrow(Box<TyModel>, Box<TyModel>),
    Tuple(Seq<TyModel>),
    List(Box<TyModel>),
    Option(Box<TyModel>),
    Named(Seq<char>),
    Unknown,
}

pub open spec fn ty_model(t: Ty) -> TyModel
    decreases t,
{
    match t {
        Ty::Nat => TyModel::Nat,
        Ty::Int => TyModel::Int,
        Ty::Bool => TyModel::Bool,
        Ty::String => TyModel::Str,
        Ty::Unit => TyModel::Unit,
        Ty::Arrow(a, b) => TyModel::Arrow(Box::new(ty_model(*a)), Box::new(ty_model(*b))),
        Ty::Tuple(ts) => TyModel::Tuple(tys_model(ts@)),
        Ty::List(a) => TyModel::List(Box::new(ty_model(*a))),
        Ty::Option(a) => TyModel::Option(Box::new(ty_model(*a))),
        Ty::Named(n) => TyModel::Named(n@),
        Ty::Unknown => TyModel::Unknown,
    }
}

pub open spec fn tys_model(ts: Seq<Ty>) -> Seq<TyModel>
    decreases ts,
{
    if ts.len() == 0 {
        seq![]
    } else {
        tys_model(ts.subrange(0, ts.len() - 1)).push(ty_model(ts[ts.len() - 1]))
    }
}

impl View for Ty {
    type V = TyModel;

    open spec fn view(&self) -> TyModel {
        ty_model(*self)
    }
}

pub proof fn lemma_tys_model(ts: Seq<Ty>)
    ensures
        tys_model(ts).len() == ts.len(),
        forall|i: int| 0 <= i < ts.len() ==> #[trigger] tys_model(ts)[i] == ty_model(ts[i]),
    decreases ts.len(),
{
    if ts.len() > 0 {
        lemma_tys_model(ts.subrange(0, ts.len() - 1));
        assert forall|i: int| 0 <= i < ts.len() implies #[trigger] tys_model(ts)[i] == ty_model(
            ts[i],
        ) by {
            if i < ts.len() - 1 {
                assert(ts.subrange(0, ts.len() - 1)[i] == ts[i]);
            }
        }
    }
}

/// How a type is written in messages.
pub open spec fn ty_text(t: TyModel) -> Seq<char>
    decreases t,
{
    match t {
        TyModel::Nat => "Nat"@,
        TyModel::Int => "Int"@,
        TyModel::Bool => "Bool"@,
        TyModel::Str => "String"@,
        TyModel::Unit => "Unit"@,
        TyModel::Arrow(a, b) => ty_text(*a) + " → "@ + ty_text(*b),
        TyModel::Tuple(ts) => "("@ + tys_text(ts) + ")"@,
        TyModel::List(a) => "List "@ + ty_text(*a),
        TyModel::Option(a) => "Option "@ + ty_text(*a),
        TyModel::Named(n) => n,
        TyModel::Unknown => "?"@,
    }
}

/// The texts of `ts`, separated by `, `.
pub open spec fn tys_text(ts: Seq<TyModel>) -> Seq<char>
    decreases ts,
{
    if ts.len() == 0 {
        seq![]
    } else if ts.len() == 1 {
        ty_text(ts[0])
    } else {
        tys_text(ts.subrange(0, ts.len() - 1)) + ", "@ + ty_text(ts[ts.len() - 1])
    }
}

/// Whether two types agree; `Unknown` agrees with everything, and `Nat` and
/// `Int` are told apart.
pub open spec fn types_match(a: TyModel, b: TyModel) -> bool
    decreases a,
{
    match (a, b) {
        (TyModel::Unknown, _) => true,
        (_, TyModel::Unknown) => true,
        (TyModel::Nat, TyModel::Nat) => true,
        (TyModel::Int, TyModel::Int) => true,
        (TyModel::Bool, TyModel::Bool) => true,
        (TyModel::Str, TyModel::Str) => true,
        (TyModel::Unit, TyModel::Unit) => true,
        (TyModel::Arrow(a1, a2), TyModel::Arrow(b1, b2)) => types_match(*a1, *b1) && types_match(
            *a2,
            *b2,
        ),
        (TyModel::Tuple(xs), TyModel::Tuple(ys)) => xs.len() == ys.len() && all_match(xs, ys),
        (TyModel::List(x), TyModel::List(y)) => types_match(*x, *y),
        (TyModel::Option(x), TyModel::Option(y)) => types_match(*x, *y),
        (TyModel::Named(x), TyModel::Named(y)) => x == y,
        _ => false,
    }
}

/// Whether the types of `xs` match those of `ys` position by position.
pub open spec fn all_match(xs: Seq<TyModel>, ys: Seq<TyModel>) -> bool
    decreases xs,
{
    if xs.len() == 0 {
        true
    } else {
        all_match(xs.subrange(0, xs.len() - 1), ys) && types_match(
            xs[xs.len() - 1],
            ys[xs.len() - 1],
        )
    }
}

// ---------------------------------------------------------------------------
// From written types
// ---------------------------------------------------------------------------

/// The type a written type denotes.
pub open spec fn ty_of(t: Type) -> TyModel
    decreases t,
{
    match t {
        Type::Named(n) => if n@ == "Nat"@ {
            TyModel::Nat
        } else if n@ == "Int"@ {
            TyModel::Int
        } else if n@ == "Bool"@ {
            TyModel::Bool
        } else if n@ == "String"@ {
            TyModel::Str
        } else {
            TyModel::Named(n@)
        },
        Type::Arrow(a, b) => TyModel::Arrow(Box::new(ty_of(*a)), Box::new(ty_of(*b))),
        Type::App(base, arg) => match *base {
            Type::Named(n) => if n@ == "IO"@ {
                TyModel::Unit
            } else if n@ == "List"@ {
                TyModel::List(Box::new(ty_of(*arg)))
            } else if n@ == "Option"@ {
                TyModel::Option(Box::new(ty_of(*arg)))
            } else {
                TyModel::Named(n@)
            },
            _ => TyModel::Unknown,
        },
        Type::Tuple(ts) => TyModel::Tuple(tys_of(ts@)),
        Type::Unit => TyModel::Unit,
    }
}

pub open spec fn tys_of(ts: Seq<Type>) -> Seq<TyModel>
    decreases ts,
{
    if ts.len() == 0 {
        seq![]
    } else {
        tys_of(ts.subrange(0, ts.len() - 1)).push(ty_of(ts[ts.len() - 1]))
    }
}

/// `t1 → t2 → ... → ret` for the types `ts`.
pub open spec fn fun_type(ts: Seq<TyModel>, ret: TyModel) -> TyModel
    decreases ts.len(),
{
    if ts.len() == 0 {
        ret
    } else {
        TyModel::Arrow(Box::new(ts[0]), Box::new(fun_type(ts.drop_first(), ret)))
    }
}

/// The types of typed parameters.
pub open spec fn param_types(ps: Seq<(String, Type)>) -> Seq<TyModel>
    decreases ps.len(),
{
    if ps.len() == 0 {
        seq![]
    } else {
        param_types(ps.drop_last()).push(ty_of(ps.last().1))
    }
}

/// The type a definition gets from its signature.
pub open spec fn signature_type(ps: Seq<(String, Type)>, ret: Option<Type>) -> TyModel {
    fun_type(
        param_types(ps),
        match ret {
            Some(t) => ty_of(t),
            None => TyModel::Unknown,
        },
    )
}

/// The parameter types of an arrow type, in order.
pub open spec fn arrow_params(t: TyModel) -> Seq<TyModel>
    decreases t,
{
    match t {
        TyModel::Arrow(a, b) => seq![*a] + arrow_params(*b),
        _ => seq![],
    }
}

/// What an arrow type finally returns.
pub open spec fn arrow_result(t: TyModel) -> TyModel
    decreases t,
{
    match t {
        TyModel::Arrow(_, b) => arrow_result(*b),
        _ => t,
    }
}

/// `ts[i]`, or `Unknown` past the end.
pub open spec fn ty_at(ts: Seq<TyModel>, i: int) -> TyModel {
    if 0 <= i < ts.len() {
        ts[i]
    } else {
        TyModel::Unknown
    }
}

// ---------------------------------------------------------------------------
// Environments
// ---------------------------------------------------------------------------

/// A typing environment: names with their types, the latest last.
pub type TyEnv = Seq<(Seq<char>, TyModel)>;

/// The type of the latest binding of `name`.
pub open spec fn find_latest(env: TyEnv, name: Seq<char>) -> Option<TyModel>
    decreases env.len(),
{
    if env.len() == 0 {
        None
    } else if env.last().0 == name {
        Some(env.last().1)
    } else {
        find_latest(env.drop_last(), name)
    }
}

/// The type of a name: a tuple field `p.n` gives the `n`-th component of a
/// tuple-typed `p` (or `Unknown`); any other name gives its latest binding.
pub open spec fn lookup_ty(env: TyEnv, name: Seq<char>) -> Option<TyModel>
    decreases name.len(),
{
    match last_dot(name) {
        Some(d) => if 0 <= d < name.len() && parses_as_usize(name.subrange(d + 1, name.len() as int)) {
            let idx = digits_value(unsigned_digits(name.subrange(d + 1, name.len() as int)));
            match lookup_ty(env, name.subrange(0, d)) {
                Some(TyModel::Tuple(ts)) => if 1 <= idx <= ts.len() {
                    Some(ts[idx - 1])
                } else {
                    Some(TyModel::Unknown)
                },
                _ => Some(TyModel::Unknown),
            }
        } else {
            find_latest(env, name)
        },
        None => find_latest(env, name),
    }
}

/// The names in scope before any declaration, with their types.
pub open spec fn builtin_types() -> TyEnv {
    seq![
        ("IO.println"@, TyModel::Arrow(Box::new(TyModel::Str), Box::new(TyModel::Unit))),
        ("toString"@, TyModel::Arrow(Box::new(TyModel::Unknown), Box::new(TyModel::Str))),
        ("()"@, TyModel::Unit),
        ("List.nil"@, TyModel::List(Box::new(TyModel::Unknown))),
        (
            "List.cons"@,
            TyModel::Arrow(
                Box::new(TyModel::Unknown),
                Box::new(
                    TyModel::Arrow(
                        Box::new(TyModel::List(Box::new(TyModel::Unknown))),
                        Box::new(TyModel::List(Box::new(TyModel::Unknown))),
                    ),
                ),
            ),
        ),
        ("Option.none"@, TyModel::Option(Box::new(TyModel::Unknown))),
        (
            "Option.some"@,
            TyModel::Arrow(
                Box::new(TyModel::Unknown),
                Box::new(TyModel::Option(Box::new(TyModel::Unknown))),
            ),
        ),
    ]
}

/// Typed parameters as bindings.
pub open spec fn param_bindings(ps: Seq<(String, Type)>) -> TyEnv
    decreases ps.len(),
{
    if ps.len() == 0 {
        seq![]
    } else {
        param_bindings(ps.drop_last()).push((ps.last().0@, ty_of(ps.last().1)))
    }
}

/// The bindings a pattern makes when matched against a value of type `expected`.
pub open spec fn pattern_bindings(p: Pattern, expected: TyModel) -> TyEnv
    decreases p,
{
    match p {
        Pattern::Var(n) => seq![(n@, expected)],
        Pattern::Constructor(_, args) => patterns_bindings(args@, seq![]),
        Pattern::Successor(n, _) => seq![(n@, TyModel::Nat)],
        Pattern::Tuple(ps) => patterns_bindings(
            ps@,
            match expected {
                TyModel::Tuple(ts) => ts,
                _ => seq![],
            },
        ),
        _ => seq![],
    }
}

/// The bindings of patterns matched against the types `ts`, position by
/// position (`Unknown` past the end of `ts`).
pub open spec fn patterns_bindings(ps: Seq<Pattern>, ts: Seq<TyModel>) -> TyEnv
    decreases ps,
{
    if ps.len() == 0 {
        seq![]
    } else {
        patterns_bindings(ps.subrange(0, ps.len() - 1), ts) + pattern_bindings(
            ps[ps.len() - 1],
            ty_at(ts, ps.len() - 1),
        )
    }
}

// ---------------------------------------------------------------------------
// Reports
// ---------------------------------------------------------------------------

/// A report: its message and where it points.
pub type Report = (Seq<char>, Span);

/// The span reported for an expression: a variable's own, else none.
pub open spec fn expr_span(e: Expr) -> Span {
    match e {
        Expr::Var(_, span) => span,
        _ => Span { line: 0, column: 0, end_column: 0 },
    }
}

pub open spec fn mismatch_message(expected: TyModel, actual: TyModel) -> Seq<char> {
    "type mismatch: expected `"@ + ty_text(expected) + "`, found `"@ + ty_text(actual) + "`"@
}

pub open spec fn numeric_message(t: TyModel) -> Seq<char> {
    "expected numeric type, found `"@ + ty_text(t) + "`"@
}

/// What a compatibility check reports.
pub open spec fn compat_reports(expected: TyModel, actual: TyModel, span: Span) -> Seq<Report> {
    if expected is Unknown || actual is Unknown || types_match(expected, actual) {
        seq![]
    } else {
        seq![(mismatch_message(expected, actual), span)]
    }
}

/// What a check for a numeric type reports.
pub open spec fn numeric_reports(t: TyModel, span: Span) -> Seq<Report> {
    if t is Unknown || t is Nat || t is Int {
        seq![]
    } else {
        seq![(numeric_message(t), span)]
    }
}

// ---------------------------------------------------------------------------
// Inference
// ---------------------------------------------------------------------------

/// The type inferred for `e` in `env`, and what inferring it reports, in order.
pub open spec fn infer(env: TyEnv, e: Expr) -> (TyModel, Seq<Report>)
    decreases e,
{
    match e {
        Expr::IntLit(_) => (TyModel::Nat, seq![]),
        Expr::StringLit(_) => (TyModel::Str, seq![]),
        Expr::BoolLit(_) => (TyModel::Bool, seq![]),
        Expr::Var(name, _) => (
            match lookup_ty(env, name@) {
                Some(t) => t,
                None => TyModel::Unknown,
            },
            seq![],
        ),
        Expr::BinOp { op, lhs, rhs } => {
            let l = infer(env, *lhs);
            let r = infer(env, *rhs);
            match op {
                BinOp::Add | BinOp::Sub | BinOp::Mul | BinOp::Div | BinOp::Mod => (
                    if l.0 is Unknown {
                        r.0
                    } else {
                        l.0
                    },
                    l.1 + r.1 + numeric_reports(l.0, expr_span(*lhs)) + numeric_reports(
                        r.0,
                        expr_span(*rhs),
                    ),
                ),
                BinOp::And | BinOp::Or => (
                    TyModel::Bool,
                    l.1 + r.1 + compat_reports(TyModel::Bool, l.0, expr_span(*lhs))
                        + compat_reports(TyModel::Bool, r.0, expr_span(*rhs)),
                ),
                _ => (TyModel::Bool, l.1 + r.1),
            }
        },
        Expr::UnaryOp { op, operand } => {
            let x = infer(env, *operand);
            match op {
                UnaryOp::Not => (
                    TyModel::Bool,
                    x.1 + compat_reports(TyModel::Bool, x.0, expr_span(*operand)),
                ),
                UnaryOp::Neg => (x.0, x.1 + numeric_reports(x.0, expr_span(*operand))),
            }
        },
        Expr::FunApp { func, arg } => {
            let f = infer(env, *func);
            let a = infer(env, *arg);
            (
                match f.0 {
                    TyModel::Arrow(_, ret) => *ret,
                    _ => TyModel::Unknown,
                },
                f.1 + a.1,
            )
        },
        Expr::If { cond, then_branch, else_branch } => {
            let c = infer(env, *cond);
            let t = infer(env, *then_branch);
            let f = infer(env, *else_branch);
            (
                t.0,
                c.1 + compat_reports(TyModel::Bool, c.0, expr_span(*cond)) + t.1 + f.1
                    + compat_reports(t.0, f.0, expr_span(*else_branch)),
            )
        },
        Expr::Let { name, ty, value, body } => {
            let v = infer(env, *value);
            let declared = match ty {
                Some(t) => ty_of(t),
                None => v.0,
            };
            let checked = match ty {
                Some(t) => compat_reports(ty_of(t), v.0, expr_span(*value)),
                None => seq![],
            };
            let b = infer(env.push((name@, declared)), *body);
            (b.0, v.1 + checked + b.1)
        },
        Expr::Match { scrutinee, arms } => {
            let s = infer(env, *scrutinee);
            let a = arms_infer(env, s.0, arms@);
            (a.0, s.1 + a.1)
        },
        Expr::Do(stmts) => {
            let d = do_infer(env, stmts@);
            (d.0, d.1)
        },
        Expr::Lambda { params, body } => {
            let b = infer(env + lambda_bindings(params@), *body);
            (fun_type(lambda_types(params@), b.0), b.1)
        },
        Expr::Paren(inner) => infer(env, *inner),
        Expr::Tuple(elems) => {
            let x = exprs_infer(env, elems@);
            (TyModel::Tuple(x.0), x.1)
        },
        Expr::StringInterpolation(parts) => (TyModel::Str, parts_reports(env, parts@)),
    }
}

/// The result type of a `match` (the first arm's, `Unknown` with no arms) and
/// what checking its arms reports.
pub open spec fn arms_infer(env: TyEnv, scrutinee: TyModel, arms: Seq<MatchArm>) -> (
    TyModel,
    Seq<Report>,
)
    decreases arms,
{
    if arms.len() == 0 {
        (TyModel::Unknown, seq![])
    } else {
        let prev = arms_infer(env, scrutinee, arms.subrange(0, arms.len() - 1));
        let arm = arms[arms.len() - 1];
        let b = infer(env + pattern_bindings(arm.pattern, scrutinee), arm.body);
        if prev.0 is Unknown {
            (b.0, prev.1 + b.1)
        } else {
            (prev.0, prev.1 + b.1 + compat_reports(prev.0, b.0, expr_span(arm.body)))
        }
    }
}

/// A `do` block: the type of its last statement (`Unit` for a `let` or an
/// empty block), what it reports, and the bindings its `let`s made.
pub open spec fn do_infer(env: TyEnv, stmts: Seq<DoStatement>) -> (TyModel, Seq<Report>, TyEnv)
    decreases stmts,
{
    if stmts.len() == 0 {
        (TyModel::Unit, seq![], seq![])
    } else {
        let prev = do_infer(env, stmts.subrange(0, stmts.len() - 1));
        match stmts[stmts.len() - 1] {
            DoStatement::Expr(e) => {
                let x = infer(env + prev.2, e);
                (x.0, prev.1 + x.1, prev.2)
            },
            DoStatement::Let(n, v) => {
                let x = infer(env + prev.2, v);
                (TyModel::Unit, prev.1 + x.1, prev.2.push((n@, x.0)))
            },
        }
    }
}

/// The types of lambda parameters (`Unknown` where none is written).
pub open spec fn lambda_types(ps: Seq<(String, Option<Type>)>) -> Seq<TyModel>
    decreases ps.len(),
{
    if ps.len() == 0 {
        seq![]
    } else {
        lambda_types(ps.drop_last()).push(
            match ps.last().1 {
                Some(t) => ty_of(t),
                None => TyModel::Unknown,
            },
        )
    }
}

pub open spec fn lambda_bindings(ps: Seq<(String, Option<Type>)>) -> TyEnv
    decreases ps.len(),
{
    if ps.len() == 0 {
        seq![]
    } else {
        lambda_bindings(ps.drop_last()).push(
            (
                ps.last().0@,
                match ps.last().1 {
                    Some(t) => ty_of(t),
                    None => TyModel::Unknown,
                },
            ),
        )
    }
}

/// The types of a list of expressions and what inferring them reports.
pub open spec fn exprs_infer(env: TyEnv, es: Seq<Expr>) -> (Seq<TyModel>, Seq<Report>)
    decreases es,
{
    if es.len() == 0 {
        (seq![], seq![])
    } else {
        let prev = exprs_infer(env, es.subrange(0, es.len() - 1));
        let x = infer(env, es[es.len() - 1]);
        (prev.0.push(x.0), prev.1 + x.1)
    }
}

/// What the interpolated expressions of a string report.
pub open spec fn parts_reports(env: TyEnv, ps: Seq<StringInterpPart>) -> Seq<Report>
    decreases ps,
{
    if ps.len() == 0 {
        seq![]
    } else {
        parts_reports(env, ps.subrange(0, ps.len() - 1)) + match ps[ps.len() - 1] {
            StringInterpPart::Expr(e) => infer(env, e).1,
            StringInterpPart::Literal(_) => seq![],
        }
    }
}

// ---------------------------------------------------------------------------
// Declarations
// ---------------------------------------------------------------------------

/// What checking the cases of a pattern-matching definition reports: each
/// case's patterns take the written parameter types in order, and each body
/// is held to the final result type.
pub open spec fn cases_reports(
    env: TyEnv,
    pats: Seq<TyModel>,
    ret: TyModel,
    cases: Seq<(Vec<Pattern>, Expr)>,
) -> Seq<Report>
    decreases cases,
{
    if cases.len() == 0 {
        seq![]
    } else {
        let c = cases[cases.len() - 1];
        let b = infer(env + patterns_bindings(c.0@, pats), c.1);
        cases_reports(env, pats, ret, cases.subrange(0, cases.len() - 1)) + b.1 + compat_reports(
            ret,
            b.0,
            expr_span(c.1),
        )
    }
}

/// What checking a declaration reports.
pub open spec fn decl_reports(env: TyEnv, d: Decl) -> Seq<Report>
    decreases d,
{
    match d {
        Decl::FunDef { params, return_type, body, .. } => {
            let b = infer(env + param_bindings(params@), body);
            b.1 + match return_type {
                Some(t) => compat_reports(ty_of(t), b.0, expr_span(body)),
                None => seq![],
            }
        },
        Decl::FunDefMatch { params, return_type, cases, .. } => {
            let full = match return_type {
                Some(t) => ty_of(t),
                None => TyModel::Unknown,
            };
            let (pats, ret) = match return_type {
                Some(_) => (arrow_params(full), arrow_result(full)),
                None => (seq![], TyModel::Unknown),
            };
            cases_reports(env + param_bindings(params@), pats, ret, cases@)
        },
        Decl::Eval(e) => infer(env, e).1,
        Decl::Namespace { decls, .. } => decls_reports(env, decls@),
        _ => seq![],
    }
}

pub open spec fn decls_reports(env: TyEnv, ds: Seq<Decl>) -> Seq<Report>
    decreases ds,
{
    if ds.len() == 0 {
        seq![]
    } else {
        decls_reports(env, ds.subrange(0, ds.len() - 1)) + decl_reports(env, ds[ds.len() - 1])
    }
}

/// The signatures of an inductive type's constructors, plain and qualified.
pub open spec fn ctor_signatures(cs: Seq<crate::ast::Constructor>, tname: Seq<char>) -> TyEnv
    decreases cs.len(),
{
    if cs.len() == 0 {
        seq![]
    } else {
        let c = cs.last();
        let t = fun_type(tys_of(c.fields@), TyModel::Named(tname));
        ctor_signatures(cs.drop_last(), tname) + seq![
            (c.name@, t),
            (crate::resolver::dotted(tname, c.name@), t),
        ]
    }
}

/// The accessor signatures of a structure's fields.
pub open spec fn field_signatures(fs: Seq<(String, Type)>, sname: Seq<char>) -> TyEnv
    decreases fs.len(),
{
    if fs.len() == 0 {
        seq![]
    } else {
        field_signatures(fs.drop_last(), sname).push(
            (
                crate::resolver::dotted(sname, fs.last().0@),
                TyModel::Arrow(Box::new(TyModel::Named(sname)), Box::new(ty_of(fs.last().1))),
            ),
        )
    }
}

/// The signatures a declaration contributes to the top-level scope.
pub open spec fn decl_signatures(d: Decl) -> TyEnv {
    match d {
        Decl::FunDef { name, params, return_type, .. } => seq![
            (name@, signature_type(params@, return_type)),
        ],
        Decl::FunDefMatch { name, params, return_type, .. } => seq![
            (name@, signature_type(params@, return_type)),
        ],
        Decl::InductiveDef { name, constructors } => ctor_signatures(constructors@, name@).push(
            (name@, TyModel::Named(name@)),
        ),
        Decl::StructDef { name, fields } => seq![
            (
                crate::resolver::dotted(name@, "mk"@),
                fun_type(param_types(fields@), TyModel::Named(name@)),
            ),
        ] + field_signatures(fields@, name@).push((name@, TyModel::Named(name@))),
        _ => seq![],
    }
}

pub open spec fn decls_signatures(ds: Seq<Decl>) -> TyEnv
    decreases ds.len(),
{
    if ds.len() == 0 {
        seq![]
    } else {
        decls_signatures(ds.drop_last()) + decl_signatures(ds.last())
    }
}

/// The environment a program's declarations are checked in.
pub open spec fn program_types(ds: Seq<Decl>) -> TyEnv {
    builtin_types() + decls_signatures(ds)
}

/// The message and span of each type error.
pub open spec fn type_reports(es: Seq<CompilerError>) -> Seq<Report> {
    es.map_values(
        |e: CompilerError|
            match e {
                CompilerError::TypeError { msg, span } => (msg@, span),
                _ => (seq![], Span { line: 0, column: 0, end_column: 0 }),
            },
    )
}

pub open spec fn all_type_errors(es: Seq<CompilerError>) -> bool {
    forall|i: int| 0 <= i < es.len() ==> (#[trigger] es[i]) is TypeError
}

// ---------------------------------------------------------------------------
// Executable operations on types
// ---------------------------------------------------------------------------

impl Ty {
    /// A copy of the type.
    pub fn copy(&self) -> (r: Ty)
        ensures
            r@ == self@,
        decreases self,
    {
        match self {
            Ty::Nat => Ty::Nat,
            Ty::Int => Ty::Int,
            Ty::Bool => Ty::Bool,
            Ty::String => Ty::String,
            Ty::Unit => Ty::Unit,
            Ty::Arrow(a, b) => Ty::Arrow(Box::new(a.copy()), Box::new(b.copy())),
            Ty::Tuple(ts) => Ty::Tuple(copy_tys(ts)),
            Ty::List(a) => Ty::List(Box::new(a.copy())),
            Ty::Option(a) => Ty::Option(Box::new(a.copy())),
            Ty::Named(n) => Ty::Named(copy_string(n)),
            Ty::Unknown => Ty::Unknown,
        }
    }

    /// How the type is written in messages.
    pub fn to_display_string(&self) -> (r: std::string::String)
        ensures
            r@ == ty_text(self@),
        decreases self,
    {
        let mut out = std::string::String::new();
        match self {
            Ty::Nat => out.append("Nat"),
            Ty::Int => out.append("Int"),
            Ty::Bool => out.append("Bool"),
            Ty::String => out.append("String"),
            Ty::Unit => out.append("Unit"),
            Ty::Arrow(a, b) => {
                let x = a.to_display_string();
                let y = b.to_display_string();
                out.append(x.as_str());
                out.append(" → ");
                out.append(y.as_str());
            },
            Ty::Tuple(ts) => {
                out.append("(");
                let mut i: usize = 0;
                while i < ts.len()
                    invariant
                        i <= ts@.len(),
                        *self == Ty::Tuple(*ts),
                        out@ == "("@ + tys_text(tys_model(ts@.subrange(0, i as int))),
                    decreases ts.len() - i,
                {
                    proof {
                        assert(decreases_to!(*self => (*self)->Tuple_0));
                        assert(decreases_to!(*ts => ts[i as int]));
                        assert(ts@.subrange(0, i + 1).subrange(0, i as int) =~= ts@.subrange(0, i as int));
                        lemma_tys_model(ts@.subrange(0, i + 1));
                        lemma_tys_model(ts@.subrange(0, i as int));
                        assert(tys_model(ts@.subrange(0, i + 1)).subrange(0, i as int) =~= tys_model(ts@.subrange(0, i as int)));
                    }
                    let x = ts[i].to_display_string();
                    if i > 0 {
                        out.append(", ");
                    }
                    out.append(x.as_str());
                    proof {
                        let m = tys_model(ts@.subrange(0, i + 1));
                        if i > 0 {
                            assert(out@ =~= "("@ + (tys_text(m.subrange(0, i as int)) + ", "@ + ty_text(m[i as int])));
                        } else {
                            assert(out@ =~= "("@ + ty_text(m[0]));
                        }
                    }
                    i += 1;
                }
                assert(ts@.subrange(0, i as int) =~= ts@);
                out.append(")");
            },
            Ty::List(a) => {
                let x = a.to_display_string();
                out.append("List ");
                out.append(x.as_str());
            },
            Ty::Option(a) => {
                let x = a.to_display_string();
                out.append("Option ");
                out.append(x.as_str());
            },
            Ty::Named(n) => out.append(n.as_str()),
            Ty::Unknown => out.append("?"),
        }
        out
    }
}

/// A copy of a list of types.
fn copy_tys(ts: &Vec<Ty>) -> (r: Vec<Ty>)
    ensures
        tys_model(r@) == tys_model(ts@),
    decreases ts,
{
    let mut r: Vec<Ty> = Vec::new();
    let mut i: usize = 0;
    while i < ts.len()
        invariant
            i <= ts@.len(),
            tys_model(r@) == tys_model(ts@.subrange(0, i as int)),
            r@.len() == i,
        decreases ts.len() - i,
    {
        proof {
            assert(decreases_to!(*ts => ts[i as int]));
        }
        let t = ts[i].copy();
        let ghost r0 = r@;
        r.push(t);
        assert(r@.subrange(0, r@.len() - 1) =~= r0);
        assert(ts@.subrange(0, i + 1).subrange(0, i as int) =~= ts@.subrange(0, i as int));
        i += 1;
    }
    assert(ts@.subrange(0, i as int) =~= ts@);
    r
}

/// Whether two types agree (see `types_match`).
fn types_match_exec(a: &Ty, b: &Ty) -> (r: bool)
    ensures
        r == types_match(a@, b@),
    decreases a,
{
    match (a, b) {
        (Ty::Unknown, _) => true,
        (_, Ty::Unknown) => true,
        (Ty::Nat, Ty::Nat) => true,
        (Ty::Int, Ty::Int) => true,
        (Ty::Bool, Ty::Bool) => true,
        (Ty::String, Ty::String) => true,
        (Ty::Unit, Ty::Unit) => true,
        (Ty::Arrow(a1, a2), Ty::Arrow(b1, b2)) => types_match_exec(a1, b1) && types_match_exec(a2, b2),
        (Ty::Tuple(xs), Ty::Tuple(ys)) => {
            proof {
                lemma_tys_model(xs@);
                lemma_tys_model(ys@);
            }
            if xs.len() != ys.len() {
                return false;
            }
            let mut i: usize = 0;
            while i < xs.len()
                invariant
                    i <= xs@.len(),
                    xs@.len() == ys@.len(),
                    *a == Ty::Tuple(*xs),
                    *b == Ty::Tuple(*ys),
                    tys_model(xs@).len() == xs@.len(),
                    tys_model(ys@).len() == ys@.len(),
                    forall|j: int| 0 <= j < xs@.len() ==> #[trigger] tys_model(xs@)[j] == ty_model(xs@[j]),
                    forall|j: int| 0 <= j < ys@.len() ==> #[trigger] tys_model(ys@)[j] == ty_model(ys@[j]),
                    all_match(tys_model(xs@).subrange(0, i as int), tys_model(ys@)),
                decreases xs.len() - i,
            {
                proof {
                    assert(decreases_to!(*a => (*a)->Tuple_0));
                    assert(decreases_to!(*xs => xs[i as int]));
                    assert(tys_model(xs@).subrange(0, i + 1).subrange(0, i as int) =~= tys_model(xs@).subrange(0, i as int));
                    assert(tys_model(xs@)[i as int] == xs@[i as int]@);
                    assert(tys_model(ys@)[i as int] == ys@[i as int]@);
                }
                if !types_match_exec(&xs[i], &ys[i]) {
                    proof {
                        if all_match(tys_model(xs@), tys_model(ys@)) {
                            lemma_all_match_prefix(tys_model(xs@), tys_model(ys@), i + 1);
                            assert(tys_model(xs@).subrange(0, i + 1)[i as int] == tys_model(xs@)[i as int]);
                        }
                    }
                    return false;
                }
                i += 1;
            }
            assert(tys_model(xs@).subrange(0, i as int) =~= tys_model(xs@));
            true
        },
        (Ty::List(x), Ty::List(y)) => types_match_exec(x, y),
        (Ty::Option(x), Ty::Option(y)) => types_match_exec(x, y),
        (Ty::Named(x), Ty::Named(y)) => crate::text::str_is(x.as_str(), y.as_str()),
        _ => false,
    }
}

/// Matching all of `xs` implies matching each prefix.
proof fn lemma_all_match_prefix(xs: Seq<TyModel>, ys: Seq<TyModel>, n: int)
    requires
        0 <= n <= xs.len(),
        all_match(xs, ys),
    ensures
        all_match(xs.subrange(0, n), ys),
    decreases xs.len(),
{
    if n < xs.len() {
        lemma_all_match_prefix(xs.subrange(0, xs.len() - 1), ys, n);
        assert(xs.subrange(0, xs.len() - 1).subrange(0, n) =~= xs.subrange(0, n));
    } else {
        assert(xs.subrange(0, n) =~= xs);
    }
}

/// The type a written type denotes.
fn ast_type_to_ty(t: &Type) -> (r: Ty)
    ensures
        r@ == ty_of(*t),
    decreases t,
{
    match t {
        Type::Named(name) => {
            if crate::text::str_is(name.as_str(), "Nat") {
                Ty::Nat
            } else if crate::text::str_is(name.as_str(), "Int") {
                Ty::Int
            } else if crate::text::str_is(name.as_str(), "Bool") {
                Ty::Bool
            } else if crate::text::str_is(name.as_str(), "String") {
                Ty::String
            } else {
                Ty::Named(copy_string(name))
            }
        },
        Type::Arrow(a, b) => Ty::Arrow(Box::new(ast_type_to_ty(a)), Box::new(ast_type_to_ty(b))),
        Type::App(base, arg) => {
            match &**base {
                Type::Named(name) => {
                    if crate::text::str_is(name.as_str(), "IO") {
                        Ty::Unit
                    } else if crate::text::str_is(name.as_str(), "List") {
                        Ty::List(Box::new(ast_type_to_ty(arg)))
                    } else if crate::text::str_is(name.as_str(), "Option") {
                        Ty::Option(Box::new(ast_type_to_ty(arg)))
                    } else {
                        Ty::Named(copy_string(name))
                    }
                },
                _ => Ty::Unknown,
            }
        },
        Type::Tuple(ts) => {
            let mut r: Vec<Ty> = Vec::new();
            let mut i: usize = 0;
            while i < ts.len()
                invariant
                    i <= ts@.len(),
                    *t == Type::Tuple(*ts),
                    tys_model(r@) == tys_of(ts@.subrange(0, i as int)),
                    r@.len() == i,
                decreases ts.len() - i,
            {
                proof {
                    assert(decreases_to!(*t => (*t)->Tuple_0));
                    assert(decreases_to!(*ts => ts[i as int]));
                }
                let x = ast_type_to_ty(&ts[i]);
                let ghost r0 = r@;
                r.push(x);
                assert(r@.subrange(0, r@.len() - 1) =~= r0);
                assert(ts@.subrange(0, i + 1).subrange(0, i as int) =~= ts@.subrange(0, i as int));
                i += 1;
            }
            assert(ts@.subrange(0, i as int) =~= ts@);
            Ty::Tuple(r)
        },
        Type::Unit => Ty::Unit,
    }
}

/// The type of a definition with parameters `params` and result `return_type`.
fn build_fun_type(params: &Vec<(std::string::String, Type)>, return_type: &Option<Type>) -> (r: Ty)
    ensures
        r@ == signature_type(params@, *return_type),
{
    let ret = match return_type {
        Some(t) => ast_type_to_ty(t),
        None => Ty::Unknown,
    };
    let mut ty = ret;
    let mut i = params.len();
    proof {
        lemma_param_types(params@);
    }
    assert(param_types(params@).subrange(i as int, i as int) =~= Seq::<TyModel>::empty());
    while i > 0
        invariant
            i <= params@.len(),
            param_types(params@).len() == params@.len(),
            forall|j: int| 0 <= j < params@.len() ==> #[trigger] param_types(params@)[j] == ty_of(params@[j].1),
            ty@ == fun_type(
                param_types(params@).subrange(i as int, params@.len() as int),
                match *return_type {
                    Some(t) => ty_of(t),
                    None => TyModel::Unknown,
                },
            ),
        decreases i,
    {
        i -= 1;
        let p = ast_type_to_ty(&params[i].1);
        assert(param_types(params@).subrange(i as int, params@.len() as int).drop_first() =~= param_types(params@).subrange(i + 1, params@.len() as int));
        ty = Ty::Arrow(Box::new(p), Box::new(ty));
    }
    assert(param_types(params@).subrange(0, params@.len() as int) =~= param_types(params@));
    ty
}

pub proof fn lemma_param_types(ps: Seq<(std::string::String, Type)>)
    ensures
        param_types(ps).len() == ps.len(),
        forall|j: int| 0 <= j < ps.len() ==> #[trigger] param_types(ps)[j] == ty_of(ps[j].1),
    decreases ps.len(),
{
    if ps.len() > 0 {
        lemma_param_types(ps.drop_last());
        assert forall|j: int| 0 <= j < ps.len() implies #[trigger] param_types(ps)[j] == ty_of(ps[j].1) by {
            if j < ps.len() - 1 {
                assert(ps.drop_last()[j] == ps[j]);
            }
        }
    }
}

/// Splits an arrow type into its parameter types and what it finally returns.
fn decompose_arrow(ty: Ty, params: &mut Vec<Ty>) -> (r: Ty)
    ensures
        tys_model(final(params)@) == tys_model(old(params)@) + arrow_params(ty@),
        r@ == arrow_result(ty@),
    decreases ty,
{
    match ty {
        Ty::Arrow(from, to) => {
            let ghost p0 = params@;
            params.push(*from);
            assert(params@.subrange(0, params@.len() - 1) =~= p0);
            let r = decompose_arrow(*to, params);
            assert(tys_model(params@) =~= tys_model(old(params)@) + arrow_params(ty@));
            r
        },
        other => {
            assert(tys_model(params@) =~= tys_model(old(params)@) + arrow_params(ty@));
            other
        },
    }
}

// ---------------------------------------------------------------------------
// The checker
// ---------------------------------------------------------------------------

/// The bindings of an executable environment.
pub open spec fn env_model(v: Seq<(std::string::String, Ty)>) -> TyEnv {
    v.map_values(|p: (std::string::String, Ty)| (p.0@, p.1@))
}

proof fn lemma_env_push(v: Seq<(std::string::String, Ty)>, p: (std::string::String, Ty))
    ensures
        env_model(v.push(p)) == env_model(v).push((p.0@, p.1@)),
{
    assert(env_model(v.push(p)) =~= env_model(v).push((p.0@, p.1@)));
}

/// Infers types with a stack of scopes and reports type errors. The scopes
/// are kept as one list of bindings, searched from the latest; entering a
/// scope remembers the list's length, and leaving it cuts the list back.
pub struct TypeChecker {
    env: Vec<(std::string::String, Ty)>,
    errors: Vec<CompilerError>,
}

impl TypeChecker {
    /// The bindings in scope.
    pub closed spec fn tenv(&self) -> TyEnv {
        env_model(self.env@)
    }

    /// Just created: only the builtins are in scope and nothing is reported.
    pub closed spec fn fresh(&self) -> bool {
        self.tenv() == builtin_types() && self.errors@.len() == 0
    }

    /// Having done something that reports `list`: the scope is as before and
    /// one type error per report was added.
    closed spec fn reports_after(&self, old: &TypeChecker, list: Seq<Report>) -> bool {
        &&& self.env@ == old.env@
        &&& all_type_errors(self.errors@)
        &&& type_reports(self.errors@) == type_reports(old.errors@) + list
    }

    proof fn lemma_chain(a: &TypeChecker, b: &TypeChecker, c: &TypeChecker, x: Seq<Report>, y: Seq<Report>)
        requires
            b.reports_after(a, x),
            c.reports_after(b, y),
        ensures
            c.reports_after(a, x + y),
    {
        assert(type_reports(a.errors@) + x + y =~= type_reports(a.errors@) + (x + y));
    }

    proof fn lemma_none(a: &TypeChecker)
        requires
            all_type_errors(a.errors@),
        ensures
            a.reports_after(a, seq![]),
    {
        assert(type_reports(a.errors@) + seq![] =~= type_reports(a.errors@));
    }

    pub fn new() -> (r: TypeChecker)
        ensures
            r.fresh(),
    {
        let mut env: Vec<(std::string::String, Ty)> = Vec::new();
        let mut n = std::string::String::new();
        n.append("IO.println");
        env.push((n, Ty::Arrow(Box::new(Ty::String), Box::new(Ty::Unit))));
        let mut n = std::string::String::new();
        n.append("toString");
        env.push((n, Ty::Arrow(Box::new(Ty::Unknown), Box::new(Ty::String))));
        let mut n = std::string::String::new();
        n.append("()");
        env.push((n, Ty::Unit));
        let mut n = std::string::String::new();
        n.append("List.nil");
        env.push((n, Ty::List(Box::new(Ty::Unknown))));
        let mut n = std::string::String::new();
        n.append("List.cons");
        env.push(
            (
                n,
                Ty::Arrow(
                    Box::new(Ty::Unknown),
                    Box::new(
                        Ty::Arrow(
                            Box::new(Ty::List(Box::new(Ty::Unknown))),
                            Box::new(Ty::List(Box::new(Ty::Unknown))),
                        ),
                    ),
                ),
            ),
        );
        let mut n = std::string::String::new();
        n.append("Option.none");
        env.push((n, Ty::Option(Box::new(Ty::Unknown))));
        let mut n = std::string::String::new();
        n.append("Option.some");
        env.push(
            (n, Ty::Arrow(Box::new(Ty::Unknown), Box::new(Ty::Option(Box::new(Ty::Unknown))))),
        );
        let r = TypeChecker { env, errors: Vec::new() };
        proof {
            reveal_with_fuel(ty_model, 4);
            assert(r.tenv().len() == 7);
            assert forall|i: int| 0 <= i < 7 implies r.tenv()[i] == builtin_types()[i] by {
                assert(r.tenv()[i] == (r.env@[i].0@, ty_model(r.env@[i].1)));
            }
        }
        assert(r.tenv() =~= builtin_types());
        r
    }

    fn define(&mut self, name: std::string::String, ty: Ty)
        ensures
            final(self).tenv() == old(self).tenv().push((name@, ty@)),
            final(self).env@.len() == old(self).env@.len() + 1,
            final(self).env@.subrange(0, old(self).env@.len() as int) == old(self).env@,
            final(self).errors@ == old(self).errors@,
    {
        let ghost p = (name, ty);
        self.env.push((name, ty));
        proof {
            lemma_env_push(old(self).env@, p);
            assert(self.env@.subrange(0, old(self).env@.len() as int) =~= old(self).env@);
        }
    }

    /// Leaves the scopes entered since the list had `mark` bindings.
    fn pop_to(&mut self, mark: usize)
        requires
            mark <= old(self).env@.len(),
        ensures
            final(self).env@ == old(self).env@.subrange(0, mark as int),
            final(self).errors@ == old(self).errors@,
    {
        self.env.truncate(mark);
    }

    /// The latest binding of `name`, searched from the end.
    fn find_latest(&self, name: &std::string::String) -> (r: Option<Ty>)
        ensures
            match find_latest(self.tenv(), name@) {
                Some(m) => r matches Some(t) && t@ == m,
                None => r is None,
            },
    {
        let mut i = self.env.len();
        assert(self.tenv().take(i as int) =~= self.tenv());
        while i > 0
            invariant
                i <= self.env@.len(),
                self.tenv().len() == self.env@.len(),
                find_latest(self.tenv(), name@) == find_latest(self.tenv().take(i as int), name@),
            decreases i,
        {
            let ghost t = self.tenv().take(i as int);
            assert(t.last() == (self.env@[i - 1].0@, self.env@[i - 1].1@));
            if self.env[i - 1].0 == *name {
                return Some(self.env[i - 1].1.copy());
            }
            assert(t.drop_last() =~= self.tenv().take(i - 1));
            i -= 1;
        }
        None
    }

    /// The type of a name (see `lookup_ty`).
    fn lookup(&self, name: &std::string::String) -> (r: Option<Ty>)
        ensures
            match lookup_ty(self.tenv(), name@) {
                Some(m) => r matches Some(t) && t@ == m,
                None => r is None,
            },
        decreases name@.len(),
    {
        let chars = chars_of(name.as_str());
        proof {
            crate::resolver::lemma_last_dot(chars@);
        }
        match crate::resolver::find_last_dot(&chars) {
            Some(d) => {
                let total = chars.len();
                assert(d < total);
                match crate::resolver::parse_usize_from(&chars, d + 1) {
                    Some(idx) => {
                        let base = crate::text::string_from_prefix(&chars, d);
                        assert(base@ =~= name@.subrange(0, d as int));
                        let found = self.lookup(&base);
                        match found {
                            Some(Ty::Tuple(tys)) => {
                                proof {
                                    lemma_tys_model(tys@);
                                }
                                if idx >= 1 && idx <= tys.len() {
                                    return Some(tys[idx - 1].copy());
                                }
                            },
                            _ => {},
                        }
                        Some(Ty::Unknown)
                    },
                    None => self.find_latest(name),
                }
            },
            None => self.find_latest(name),
        }
    }

    /// Reports a mismatch unless `actual` agrees with `expected`.
    fn check_compatible(&mut self, expected: &Ty, actual: &Ty, span: &Span)
        requires
            all_type_errors(old(self).errors@),
        ensures
            final(self).reports_after(old(self), compat_reports(expected@, actual@, *span)),
    {
        proof {
            Self::lemma_none(self);
        }
        if matches!(expected, Ty::Unknown) || matches!(actual, Ty::Unknown) {
            return;
        }
        if !types_match_exec(expected, actual) {
            let mut msg = std::string::String::new();
            msg.append("type mismatch: expected `");
            let e = expected.to_display_string();
            msg.append(e.as_str());
            msg.append("`, found `");
            let a = actual.to_display_string();
            msg.append(a.as_str());
            msg.append("`");
            self.errors.push(CompilerError::TypeError { msg, span: *span });
            assert(type_reports(self.errors@) =~= type_reports(old(self).errors@) + compat_reports(expected@, actual@, *span));
        }
    }

    /// Reports a type that is not numeric.
    fn check_numeric(&mut self, ty: &Ty, span: &Span)
        requires
            all_type_errors(old(self).errors@),
        ensures
            final(self).reports_after(old(self), numeric_reports(ty@, *span)),
    {
        proof {
            Self::lemma_none(self);
        }
        if matches!(ty, Ty::Unknown | Ty::Nat | Ty::Int) {
            return;
        }
        let mut msg = std::string::String::new();
        msg.append("expected numeric type, found `");
        let t = ty.to_display_string();
        msg.append(t.as_str());
        msg.append("`");
        self.errors.push(CompilerError::TypeError { msg, span: *span });
        assert(type_reports(self.errors@) =~= type_reports(old(self).errors@) + numeric_reports(ty@, *span));
    }
}

/// The span reported for an expression.
fn expr_span_of(e: &Expr) -> (r: Span)
    ensures
        r == expr_span(*e),
{
    match e {
        Expr::Var(_, span) => *span,
        _ => Span { line: 0, column: 0, end_column: 0 },
    }
}

impl TypeChecker {
    /// Brings the variables of a pattern into scope, typed by matching it
    /// against a value of type `expected`.
    fn define_pattern_types(&mut self, pattern: &Pattern, expected: &Ty)
        ensures
            final(self).tenv() == old(self).tenv() + pattern_bindings(*pattern, expected@),
            final(self).env@.len() >= old(self).env@.len(),
            final(self).env@.subrange(0, old(self).env@.len() as int) == old(self).env@,
            final(self).errors@ == old(self).errors@,
        decreases pattern,
    {
        match pattern {
            Pattern::Var(name) => {
                self.define(copy_string(name), expected.copy());
                assert(self.tenv() =~= old(self).tenv() + pattern_bindings(*pattern, expected@));
            },
            Pattern::Successor(name, _) => {
                self.define(copy_string(name), Ty::Nat);
                assert(self.tenv() =~= old(self).tenv() + pattern_bindings(*pattern, expected@));
            },
            Pattern::Constructor(_, args) => {
                assert(decreases_to!(*pattern => (*pattern)->Constructor_1));
                let none: Vec<Ty> = Vec::new();
                assert(tys_model(none@) =~= Seq::<TyModel>::empty());
                self.define_pattern_list(args, &none);
            },
            Pattern::Tuple(pats) => {
                assert(decreases_to!(*pattern => (*pattern)->Tuple_0));
                match expected {
                    Ty::Tuple(tys) => {
                        self.define_pattern_list(pats, tys);
                    },
                    _ => {
                        let none: Vec<Ty> = Vec::new();
                        assert(tys_model(none@) =~= Seq::<TyModel>::empty());
                        self.define_pattern_list(pats, &none);
                    },
                }
            },
            _ => {
                assert(self.tenv() =~= old(self).tenv() + pattern_bindings(*pattern, expected@));
            },
        }
    }

    /// Brings the variables of `pats` into scope, the `i`-th typed by `tys[i]`
    /// (`Unknown` past its end).
    fn define_pattern_list(&mut self, pats: &Vec<Pattern>, tys: &Vec<Ty>)
        ensures
            final(self).tenv() == old(self).tenv() + patterns_bindings(pats@, tys_model(tys@)),
            final(self).env@.len() >= old(self).env@.len(),
            final(self).env@.subrange(0, old(self).env@.len() as int) == old(self).env@,
            final(self).errors@ == old(self).errors@,
        decreases pats,
    {
        proof {
            lemma_tys_model(tys@);
        }
        let ghost ts = tys_model(tys@);
        let mut i: usize = 0;
        while i < pats.len()
            invariant
                i <= pats@.len(),
                ts == tys_model(tys@),
                ts.len() == tys@.len(),
                forall|j: int| 0 <= j < tys@.len() ==> #[trigger] ts[j] == ty_model(tys@[j]),
                self.tenv() == old(self).tenv() + patterns_bindings(pats@.subrange(0, i as int), ts),
                self.env@.len() >= old(self).env@.len(),
                self.env@.subrange(0, old(self).env@.len() as int) == old(self).env@,
                self.errors@ == old(self).errors@,
            decreases pats.len() - i,
        {
            proof {
                assert(decreases_to!(*pats => pats[i as int]));
                assert(pats@.subrange(0, i + 1).subrange(0, i as int) =~= pats@.subrange(0, i as int));
            }
            let t = if i < tys.len() {
                tys[i].copy()
            } else {
                Ty::Unknown
            };
            assert(t@ == ty_at(ts, i as int));
            let ghost e0 = self.env@;
            self.define_pattern_types(&pats[i], &t);
            assert(self.tenv() =~= old(self).tenv() + patterns_bindings(pats@.subrange(0, i + 1), ts));
            assert(self.env@.subrange(0, old(self).env@.len() as int) =~= old(self).env@) by {
                assert(e0.subrange(0, old(self).env@.len() as int) == old(self).env@);
                assert(self.env@.subrange(0, e0.len() as int) == e0);
            }
            i += 1;
        }
        assert(pats@.subrange(0, i as int) =~= pats@);
    }
}

impl TypeChecker {
    /// Having inferred `t` for `e`, starting from `old`.
    closed spec fn inferred(&self, old: &TypeChecker, e: Expr, t: Ty) -> bool {
        &&& t@ == infer(old.tenv(), e).0
        &&& self.reports_after(old, infer(old.tenv(), e).1)
    }

    /// Infers the type of an expression, reporting what does not fit.
    fn infer_expr(&mut self, expr: &Expr) -> (r: Ty)
        requires
            all_type_errors(old(self).errors@),
        ensures
            final(self).inferred(old(self), *expr, r),
        decreases expr, 1nat,
    {
        proof {
            Self::lemma_none(self);
        }
        match expr {
            Expr::IntLit(_) => Ty::Nat,
            Expr::StringLit(_) => Ty::String,
            Expr::BoolLit(_) => Ty::Bool,
            Expr::Var(name, _) => {
                match self.lookup(name) {
                    Some(t) => t,
                    None => Ty::Unknown,
                }
            },
            Expr::BinOp { .. } => self.infer_binop(expr),
            Expr::UnaryOp { .. } => self.infer_unary(expr),
            Expr::FunApp { func, arg } => {
                let ghost s0 = *self;
                let ft = self.infer_expr(func);
                let ghost s1 = *self;
                let _at = self.infer_expr(arg);
                proof {
                    Self::lemma_chain(&s0, &s1, self, infer(s0.tenv(), **func).1, infer(s0.tenv(), **arg).1);
                }
                match ft {
                    Ty::Arrow(_, ret) => *ret,
                    _ => Ty::Unknown,
                }
            },
            Expr::If { .. } => self.infer_if(expr),
            Expr::Let { .. } => self.infer_let(expr),
            Expr::Match { .. } => self.infer_match(expr),
            Expr::Do(_) => self.infer_do(expr),
            Expr::Lambda { .. } => self.infer_lambda(expr),
            Expr::Paren(inner) => self.infer_expr(inner),
            Expr::Tuple(_) => self.infer_tuple(expr),
            Expr::StringInterpolation(_) => self.infer_interpolation(expr),
        }
    }

    fn infer_binop(&mut self, expr: &Expr) -> (r: Ty)
        requires
            all_type_errors(old(self).errors@),
            *expr is BinOp,
        ensures
            final(self).inferred(old(self), *expr, r),
        decreases expr, 0nat,
    {
        let ghost env0 = self.tenv();
        let ghost s0 = *self;
        match expr {
            Expr::BinOp { op, lhs, rhs } => {
                let lt = self.infer_expr(lhs);
                let ghost s1 = *self;
                let rt = self.infer_expr(rhs);
                let ghost s2 = *self;
                let ghost l = infer(env0, **lhs);
                let ghost r = infer(env0, **rhs);
                proof {
                    Self::lemma_chain(&s0, &s1, &s2, l.1, r.1);
                }
                match op {
                    BinOp::Add | BinOp::Sub | BinOp::Mul | BinOp::Div | BinOp::Mod => {
                        let ls = expr_span_of(lhs);
                        self.check_numeric(&lt, &ls);
                        let ghost s3 = *self;
                        let rs = expr_span_of(rhs);
                        self.check_numeric(&rt, &rs);
                        proof {
                            Self::lemma_chain(&s0, &s2, &s3, l.1 + r.1, numeric_reports(l.0, ls));
                            Self::lemma_chain(&s0, &s3, self, l.1 + r.1 + numeric_reports(l.0, ls), numeric_reports(r.0, rs));
                        }
                        if matches!(lt, Ty::Unknown) {
                            rt
                        } else {
                            lt
                        }
                    },
                    BinOp::And | BinOp::Or => {
                        let ls = expr_span_of(lhs);
                        self.check_compatible(&Ty::Bool, &lt, &ls);
                        let ghost s3 = *self;
                        let rs = expr_span_of(rhs);
                        self.check_compatible(&Ty::Bool, &rt, &rs);
                        proof {
                            Self::lemma_chain(&s0, &s2, &s3, l.1 + r.1, compat_reports(TyModel::Bool, l.0, ls));
                            Self::lemma_chain(&s0, &s3, self, l.1 + r.1 + compat_reports(TyModel::Bool, l.0, ls), compat_reports(TyModel::Bool, r.0, rs));
                        }
                        Ty::Bool
                    },
                    _ => Ty::Bool,
                }
            },
            _ => Ty::Unknown,
        }
    }

    fn infer_unary(&mut self, expr: &Expr) -> (r: Ty)
        requires
            all_type_errors(old(self).errors@),
            *expr is UnaryOp,
        ensures
            final(self).inferred(old(self), *expr, r),
        decreases expr, 0nat,
    {
        let ghost env0 = self.tenv();
        let ghost s0 = *self;
        match expr {
            Expr::UnaryOp { op, operand } => {
                let t = self.infer_expr(operand);
                let ghost s1 = *self;
                let ghost x = infer(env0, **operand);
                let sp = expr_span_of(operand);
                match op {
                    UnaryOp::Not => {
                        self.check_compatible(&Ty::Bool, &t, &sp);
                        proof {
                            Self::lemma_chain(&s0, &s1, self, x.1, compat_reports(TyModel::Bool, x.0, sp));
                        }
                        Ty::Bool
                    },
                    UnaryOp::Neg => {
                        self.check_numeric(&t, &sp);
                        proof {
                            Self::lemma_chain(&s0, &s1, self, x.1, numeric_reports(x.0, sp));
                        }
                        t
                    },
                }
            },
            _ => Ty::Unknown,
        }
    }

    fn infer_if(&mut self, expr: &Expr) -> (r: Ty)
        requires
            all_type_errors(old(self).errors@),
            *expr is If,
        ensures
            final(self).inferred(old(self), *expr, r),
        decreases expr, 0nat,
    {
        let ghost env0 = self.tenv();
        let ghost s0 = *self;
        match expr {
            Expr::If { cond, then_branch, else_branch } => {
                let ct = self.infer_expr(cond);
                let ghost s1 = *self;
                let cs = expr_span_of(cond);
                self.check_compatible(&Ty::Bool, &ct, &cs);
                let ghost s2 = *self;
                let tt = self.infer_expr(then_branch);
                let ghost s3 = *self;
                let et = self.infer_expr(else_branch);
                let ghost s4 = *self;
                let es = expr_span_of(else_branch);
                self.check_compatible(&tt, &et, &es);
                proof {
                    let c = infer(env0, **cond);
                    let t = infer(env0, **then_branch);
                    let f = infer(env0, **else_branch);
                    Self::lemma_chain(&s0, &s1, &s2, c.1, compat_reports(TyModel::Bool, c.0, cs));
                    Self::lemma_chain(&s0, &s2, &s3, c.1 + compat_reports(TyModel::Bool, c.0, cs), t.1);
                    Self::lemma_chain(&s0, &s3, &s4, c.1 + compat_reports(TyModel::Bool, c.0, cs) + t.1, f.1);
                    Self::lemma_chain(&s0, &s4, self, c.1 + compat_reports(TyModel::Bool, c.0, cs) + t.1 + f.1, compat_reports(t.0, f.0, es));
                }
                tt
            },
            _ => Ty::Unknown,
        }
    }

    fn infer_let(&mut self, expr: &Expr) -> (r: Ty)
        requires
            all_type_errors(old(self).errors@),
            *expr is Let,
        ensures
            final(self).inferred(old(self), *expr, r),
        decreases expr, 0nat,
    {
        let ghost env0 = self.tenv();
        let ghost s0 = *self;
        match expr {
            Expr::Let { name, ty, value, body } => {
                let vt = self.infer_expr(value);
                let ghost s1 = *self;
                let ghost v = infer(env0, **value);
                let declared = match ty {
                    Some(t) => {
                        let dt = ast_type_to_ty(t);
                        let vs = expr_span_of(value);
                        self.check_compatible(&dt, &vt, &vs);
                        dt
                    },
                    None => {
                        proof {
                            Self::lemma_none(self);
                        }
                        vt
                    },
                };
                let ghost checked = if ty.is_some() {
                    compat_reports(ty_of(ty->0), v.0, expr_span(**value))
                } else {
                    seq![]
                };
                let ghost s2 = *self;
                let mark = self.env.len();
                self.define(copy_string(name), declared);
                let ghost s3 = *self;
                let bt = self.infer_expr(body);
                self.pop_to(mark);
                assert(self.env@ =~= s2.env@);
                proof {
                    Self::lemma_chain(&s0, &s1, &s2, v.1, checked);
                    let b = infer(s3.tenv(), **body);
                    assert(type_reports(self.errors@) == type_reports(s2.errors@) + b.1);
                    Self::lemma_chain(&s0, &s2, self, v.1 + checked, b.1);
                }
                bt
            },
            _ => Ty::Unknown,
        }
    }
}

impl TypeChecker {
    fn infer_match(&mut self, expr: &Expr) -> (r: Ty)
        requires
            all_type_errors(old(self).errors@),
            *expr is Match,
        ensures
            final(self).inferred(old(self), *expr, r),
        decreases expr, 0nat,
    {
        let ghost env0 = self.tenv();
        let ghost s0 = *self;
        match expr {
            Expr::Match { scrutinee, arms } => {
                let st = self.infer_expr(scrutinee);
                let ghost s1 = *self;
                let ghost sm = st@;
                let mut result = Ty::Unknown;
                proof {
                    Self::lemma_none(self);
                }
                let mut i: usize = 0;
                while i < arms.len()
                    invariant
                        i <= arms@.len(),
                        *expr == (Expr::Match { scrutinee: *scrutinee, arms: *arms }),
                        env0 == s0.tenv(),
                        s1.env@ == s0.env@,
                        sm == st@,
                        result@ == arms_infer(env0, sm, arms@.subrange(0, i as int)).0,
                        self.reports_after(&s1, arms_infer(env0, sm, arms@.subrange(0, i as int)).1),
                    decreases arms.len() - i,
                {
                    proof {
                        assert(decreases_to!(*expr => (*expr)->arms));
                        assert(decreases_to!(*arms => arms[i as int]));
                        assert(decreases_to!(arms[i as int] => arms[i as int].body));
                        assert(arms@.subrange(0, i + 1).subrange(0, i as int) =~= arms@.subrange(0, i as int));
                    }
                    let ghost s2 = *self;
                    let ghost prev = arms_infer(env0, sm, arms@.subrange(0, i as int));
                    let mark = self.env.len();
                    self.define_pattern_types(&arms[i].pattern, &st);
                    let ghost s3 = *self;
                    let at = self.infer_expr(&arms[i].body);
                    let ghost b = infer(env0 + pattern_bindings(arms@[i as int].pattern, sm), arms@[i as int].body);
                    let ghost s4 = *self;
                    if matches!(result, Ty::Unknown) {
                        result = at;
                        proof {
                            Self::lemma_none(self);
                        }
                    } else {
                        let bs = expr_span_of(&arms[i].body);
                        self.check_compatible(&result, &at, &bs);
                    }
                    let ghost extra = if prev.0 is Unknown {
                        seq![]
                    } else {
                        compat_reports(prev.0, b.0, expr_span(arms@[i as int].body))
                    };
                    let ghost s5 = *self;
                    self.pop_to(mark);
                    assert(self.env@ =~= s2.env@);
                    proof {
                        assert(s4.reports_after(&s3, b.1));
                        assert(self.reports_after(&s2, b.1 + extra)) by {
                            assert(type_reports(s4.errors@) + extra =~= type_reports(s2.errors@) + (b.1 + extra));
                        }
                        Self::lemma_chain(&s1, &s2, self, prev.1, b.1 + extra);
                        assert(prev.1 + (b.1 + extra) =~= arms_infer(env0, sm, arms@.subrange(0, i + 1)).1);
                    }
                    i += 1;
                }
                assert(arms@.subrange(0, i as int) =~= arms@);
                proof {
                    Self::lemma_chain(&s0, &s1, self, infer(env0, **scrutinee).1, arms_infer(env0, sm, arms@).1);
                }
                result
            },
            _ => Ty::Unknown,
        }
    }

    fn infer_do(&mut self, expr: &Expr) -> (r: Ty)
        requires
            all_type_errors(old(self).errors@),
            *expr is Do,
        ensures
            final(self).inferred(old(self), *expr, r),
        decreases expr, 0nat,
    {
        let ghost env0 = self.tenv();
        let ghost s0 = *self;
        match expr {
            Expr::Do(stmts) => {
                let mark = self.env.len();
                let mut last = Ty::Unit;
                let mut i: usize = 0;
                proof {
                    Self::lemma_none(self);
                }
                while i < stmts.len()
                    invariant
                        i <= stmts@.len(),
                        *expr == Expr::Do(*stmts),
                        mark == s0.env@.len(),
                        env0 == s0.tenv(),
                        self.env@.len() >= mark,
                        self.env@.subrange(0, mark as int) == s0.env@,
                        self.tenv() == env0 + do_infer(env0, stmts@.subrange(0, i as int)).2,
                        last@ == do_infer(env0, stmts@.subrange(0, i as int)).0,
                        all_type_errors(self.errors@),
                        type_reports(self.errors@) == type_reports(s0.errors@) + do_infer(env0, stmts@.subrange(0, i as int)).1,
                    decreases stmts.len() - i,
                {
                    proof {
                        assert(decreases_to!(*expr => (*expr)->Do_0));
                        assert(decreases_to!(*stmts => stmts[i as int]));
                        assert(stmts@.subrange(0, i + 1).subrange(0, i as int) =~= stmts@.subrange(0, i as int));
                    }
                    let ghost prev = do_infer(env0, stmts@.subrange(0, i as int));
                    let ghost e1 = self.env@;
                    let ghost r1 = type_reports(self.errors@);
                    match &stmts[i] {
                        DoStatement::Expr(e) => {
                            assert(decreases_to!(stmts[i as int] => stmts[i as int]->Expr_0));
                            last = self.infer_expr(e);
                            assert(type_reports(self.errors@) =~= type_reports(s0.errors@) + do_infer(env0, stmts@.subrange(0, i + 1)).1);
                        },
                        DoStatement::Let(name, value) => {
                            assert(decreases_to!(stmts[i as int] => stmts[i as int]->Let_1));
                            let vt = self.infer_expr(value);
                            self.define(copy_string(name), vt);
                            last = Ty::Unit;
                            assert(type_reports(self.errors@) =~= type_reports(s0.errors@) + do_infer(env0, stmts@.subrange(0, i + 1)).1);
                            assert(self.tenv() =~= env0 + do_infer(env0, stmts@.subrange(0, i + 1)).2);
                        },
                    }
                    assert(self.env@.subrange(0, mark as int) =~= s0.env@) by {
                        assert(e1.subrange(0, mark as int) == s0.env@);
                        assert(self.env@.subrange(0, e1.len() as int) == e1);
                    }
                    i += 1;
                }
                assert(stmts@.subrange(0, i as int) =~= stmts@);
                self.pop_to(mark);
                assert(self.env@ =~= s0.env@);
                last
            },
            _ => Ty::Unknown,
        }
    }

    fn infer_lambda(&mut self, expr: &Expr) -> (r: Ty)
        requires
            all_type_errors(old(self).errors@),
            *expr is Lambda,
        ensures
            final(self).inferred(old(self), *expr, r),
        decreases expr, 0nat,
    {
        let ghost env0 = self.tenv();
        let ghost s0 = *self;
        match expr {
            Expr::Lambda { params, body } => {
                let mark = self.env.len();
                let mut types: Vec<Ty> = Vec::new();
                let mut i: usize = 0;
                while i < params.len()
                    invariant
                        i <= params@.len(),
                        mark == s0.env@.len(),
                        env0 == s0.tenv(),
                        self.env@.len() >= mark,
                        self.env@.subrange(0, mark as int) == s0.env@,
                        self.errors@ == s0.errors@,
                        self.tenv() == env0 + lambda_bindings(params@.subrange(0, i as int)),
                        tys_model(types@) == lambda_types(params@.subrange(0, i as int)),
                        types@.len() == i,
                    decreases params.len() - i,
                {
                    let t = match &params[i].1 {
                        Some(a) => ast_type_to_ty(a),
                        None => Ty::Unknown,
                    };
                    let ghost e1 = self.env@;
                    self.define(copy_string(&params[i].0), t.copy());
                    let ghost t0 = types@;
                    types.push(t);
                    proof {
                        assert(params@.subrange(0, i + 1).drop_last() =~= params@.subrange(0, i as int));
                        assert(types@.subrange(0, types@.len() - 1) =~= t0);
                        assert(self.tenv() =~= env0 + lambda_bindings(params@.subrange(0, i + 1)));
                        assert(self.env@.subrange(0, mark as int) =~= s0.env@) by {
                            assert(e1.subrange(0, mark as int) == s0.env@);
                            assert(self.env@.subrange(0, e1.len() as int) == e1);
                        }
                    }
                    i += 1;
                }
                assert(params@.subrange(0, i as int) =~= params@);
                proof {
                    Self::lemma_none(self);
                }
                let bt = self.infer_expr(body);
                self.pop_to(mark);
                assert(self.env@ =~= s0.env@);
                proof {
                    lemma_tys_model(types@);
                }
                let ghost ts = tys_model(types@);
                let mut ty = bt;
                let mut k = types.len();
                assert(ts.subrange(k as int, k as int) =~= Seq::<TyModel>::empty());
                while k > 0
                    invariant
                        k <= types@.len(),
                        ts == tys_model(types@),
                        ts.len() == types@.len(),
                        forall|j: int| 0 <= j < types@.len() ==> #[trigger] ts[j] == ty_model(types@[j]),
                        ty@ == fun_type(ts.subrange(k as int, ts.len() as int), infer(env0 + lambda_bindings(params@), **body).0),
                    decreases k,
                {
                    k -= 1;
                    let p = types[k].copy();
                    assert(ts.subrange(k as int, ts.len() as int).drop_first() =~= ts.subrange(k + 1, ts.len() as int));
                    ty = Ty::Arrow(Box::new(p), Box::new(ty));
                }
                assert(ts.subrange(0, ts.len() as int) =~= ts);
                ty
            },
            _ => Ty::Unknown,
        }
    }

    fn infer_tuple(&mut self, expr: &Expr) -> (r: Ty)
        requires
            all_type_errors(old(self).errors@),
            *expr is Tuple,
        ensures
            final(self).inferred(old(self), *expr, r),
        decreases expr, 0nat,
    {
        let ghost env0 = self.tenv();
        let ghost s0 = *self;
        match expr {
            Expr::Tuple(elems) => {
                let mut tys: Vec<Ty> = Vec::new();
                proof {
                    Self::lemma_none(self);
                }
                let mut i: usize = 0;
                while i < elems.len()
                    invariant
                        i <= elems@.len(),
                        *expr == Expr::Tuple(*elems),
                        env0 == s0.tenv(),
                        tys@.len() == i,
                        tys_model(tys@) == exprs_infer(env0, elems@.subrange(0, i as int)).0,
                        self.reports_after(&s0, exprs_infer(env0, elems@.subrange(0, i as int)).1),
                    decreases elems.len() - i,
                {
                    proof {
                        assert(decreases_to!(*expr => (*expr)->Tuple_0));
                        assert(decreases_to!(*elems => elems[i as int]));
                        assert(elems@.subrange(0, i + 1).subrange(0, i as int) =~= elems@.subrange(0, i as int));
                    }
                    let ghost s1 = *self;
                    let t = self.infer_expr(&elems[i]);
                    let ghost t0 = tys@;
                    tys.push(t);
                    proof {
                        assert(tys@.subrange(0, tys@.len() - 1) =~= t0);
                        Self::lemma_chain(&s0, &s1, self, exprs_infer(env0, elems@.subrange(0, i as int)).1, infer(env0, elems@[i as int]).1);
                    }
                    i += 1;
                }
                assert(elems@.subrange(0, i as int) =~= elems@);
                Ty::Tuple(tys)
            },
            _ => Ty::Unknown,
        }
    }

    fn infer_interpolation(&mut self, expr: &Expr) -> (r: Ty)
        requires
            all_type_errors(old(self).errors@),
            *expr is StringInterpolation,
        ensures
            final(self).inferred(old(self), *expr, r),
        decreases expr, 0nat,
    {
        let ghost env0 = self.tenv();
        let ghost s0 = *self;
        match expr {
            Expr::StringInterpolation(parts) => {
                proof {
                    Self::lemma_none(self);
                }
                let mut i: usize = 0;
                while i < parts.len()
                    invariant
                        i <= parts@.len(),
                        *expr == Expr::StringInterpolation(*parts),
                        env0 == s0.tenv(),
                        self.reports_after(&s0, parts_reports(env0, parts@.subrange(0, i as int))),
                    decreases parts.len() - i,
                {
                    proof {
                        assert(decreases_to!(*expr => (*expr)->StringInterpolation_0));
                        assert(decreases_to!(*parts => parts[i as int]));
                        assert(parts@.subrange(0, i + 1).subrange(0, i as int) =~= parts@.subrange(0, i as int));
                    }
                    let ghost s1 = *self;
                    match &parts[i] {
                        StringInterpPart::Expr(e) => {
                            assert(decreases_to!(parts[i as int] => parts[i as int]->Expr_0));
                            self.infer_expr(e);
                            proof {
                                Self::lemma_chain(&s0, &s1, self, parts_reports(env0, parts@.subrange(0, i as int)), infer(env0, *e).1);
                            }
                        },
                        StringInterpPart::Literal(_) => {
                            proof {
                                Self::lemma_none(self);
                                Self::lemma_chain(&s0, &s1, self, parts_reports(env0, parts@.subrange(0, i as int)), seq![]);
                            }
                        },
                    }
                    assert(parts_reports(env0, parts@.subrange(0, i + 1)) =~= parts_reports(env0, parts@.subrange(0, i as int)) + match parts@[i as int] {
                        StringInterpPart::Expr(e) => infer(env0, e).1,
                        StringInterpPart::Literal(_) => seq![],
                    });
                    i += 1;
                }
                assert(parts@.subrange(0, i as int) =~= parts@);
                Ty::String
            },
            _ => Ty::Unknown,
        }
    }
}

/// `t1 → ... → tn → result` for the types of `tys`.
fn arrows_to(tys: &Vec<Ty>, result: Ty) -> (r: Ty)
    ensures
        r@ == fun_type(tys_model(tys@), result@),
{
    proof {
        lemma_tys_model(tys@);
    }
    let ghost ts = tys_model(tys@);
    let mut ty = result;
    let mut k = tys.len();
    assert(ts.subrange(k as int, k as int) =~= Seq::<TyModel>::empty());
    while k > 0
        invariant
            k <= tys@.len(),
            ts == tys_model(tys@),
            ts.len() == tys@.len(),
            forall|j: int| 0 <= j < tys@.len() ==> #[trigger] ts[j] == ty_model(tys@[j]),
            ty@ == fun_type(ts.subrange(k as int, ts.len() as int), result@),
        decreases k,
    {
        k -= 1;
        let p = tys[k].copy();
        assert(ts.subrange(k as int, ts.len() as int).drop_first() =~= ts.subrange(k + 1, ts.len() as int));
        ty = Ty::Arrow(Box::new(p), Box::new(ty));
    }
    assert(ts.subrange(0, ts.len() as int) =~= ts);
    ty
}

/// The types written in `ts`.
fn types_of(ts: &Vec<Type>) -> (r: Vec<Ty>)
    ensures
        tys_model(r@) == tys_of(ts@),
{
    let mut r: Vec<Ty> = Vec::new();
    let mut i: usize = 0;
    while i < ts.len()
        invariant
            i <= ts@.len(),
            tys_model(r@) == tys_of(ts@.subrange(0, i as int)),
            r@.len() == i,
        decreases ts.len() - i,
    {
        let x = ast_type_to_ty(&ts[i]);
        let ghost r0 = r@;
        r.push(x);
        assert(r@.subrange(0, r@.len() - 1) =~= r0);
        assert(ts@.subrange(0, i + 1).subrange(0, i as int) =~= ts@.subrange(0, i as int));
        i += 1;
    }
    assert(ts@.subrange(0, i as int) =~= ts@);
    r
}

/// The types of typed fields or parameters.
fn field_types(fs: &Vec<(std::string::String, Type)>) -> (r: Vec<Ty>)
    ensures
        tys_model(r@) == param_types(fs@),
{
    let mut r: Vec<Ty> = Vec::new();
    let mut i: usize = 0;
    while i < fs.len()
        invariant
            i <= fs@.len(),
            tys_model(r@) == param_types(fs@.subrange(0, i as int)),
            r@.len() == i,
        decreases fs.len() - i,
    {
        let x = ast_type_to_ty(&fs[i].1);
        let ghost r0 = r@;
        r.push(x);
        assert(r@.subrange(0, r@.len() - 1) =~= r0);
        assert(fs@.subrange(0, i + 1).drop_last() =~= fs@.subrange(0, i as int));
        i += 1;
    }
    assert(fs@.subrange(0, i as int) =~= fs@);
    r
}

/// `a.b` as a `String`.
fn dotted_name(a: &std::string::String, b: &str) -> (r: std::string::String)
    ensures
        r@ == crate::resolver::dotted(a@, b@),
{
    let mut r = copy_string(a);
    push_char(&mut r, '.');
    r.append(b);
    r
}

/// Appends a binding.
fn push_binding(v: &mut Vec<(std::string::String, Ty)>, name: std::string::String, ty: Ty)
    ensures
        env_model(final(v)@) == env_model(old(v)@).push((name@, ty@)),
{
    let ghost p = (name, ty);
    v.push((name, ty));
    proof {
        lemma_env_push(old(v)@, p);
    }
}

/// Appends the signatures a declaration contributes.
fn collect_signatures(d: &Decl, out: &mut Vec<(std::string::String, Ty)>)
    ensures
        env_model(final(out)@) == env_model(old(out)@) + decl_signatures(*d),
{
    let ghost start = env_model(out@);
    match d {
        Decl::FunDef { name, params, return_type, .. } | Decl::FunDefMatch { name, params, return_type, .. } => {
            let ty = build_fun_type(params, return_type);
            push_binding(out, copy_string(name), ty);
            assert(env_model(out@) =~= start + decl_signatures(*d));
        },
        Decl::InductiveDef { name, constructors } => {
            let mut i: usize = 0;
            while i < constructors.len()
                invariant
                    i <= constructors@.len(),
                    env_model(out@) == start + ctor_signatures(constructors@.subrange(0, i as int), name@),
                decreases constructors.len() - i,
            {
                let c = &constructors[i];
                let fields = types_of(&c.fields);
                let ty = arrows_to(&fields, Ty::Named(copy_string(name)));
                let ghost b = env_model(out@);
                push_binding(out, copy_string(&c.name), ty.copy());
                push_binding(out, dotted_name(name, c.name.as_str()), ty);
                assert(constructors@.subrange(0, i + 1).drop_last() =~= constructors@.subrange(0, i as int));
                assert(env_model(out@) =~= start + ctor_signatures(constructors@.subrange(0, i + 1), name@));
                i += 1;
            }
            assert(constructors@.subrange(0, i as int) =~= constructors@);
            push_binding(out, copy_string(name), Ty::Named(copy_string(name)));
            assert(env_model(out@) =~= start + decl_signatures(*d));
        },
        Decl::StructDef { name, fields } => {
            let ftys = field_types(fields);
            let mk = arrows_to(&ftys, Ty::Named(copy_string(name)));
            push_binding(out, dotted_name(name, "mk"), mk);
            let ghost mid = env_model(out@);
            let mut i: usize = 0;
            while i < fields.len()
                invariant
                    i <= fields@.len(),
                    env_model(out@) == mid + field_signatures(fields@.subrange(0, i as int), name@),
                decreases fields.len() - i,
            {
                let ft = ast_type_to_ty(&fields[i].1);
                let owner = Ty::Named(copy_string(name));
                assert(owner@ == TyModel::Named(name@));
                let acc = Ty::Arrow(Box::new(owner), Box::new(ft));
                assert(acc@ == TyModel::Arrow(Box::new(TyModel::Named(name@)), Box::new(ty_of(fields@[i as int].1))));
                push_binding(out, dotted_name(name, fields[i].0.as_str()), acc);
                assert(fields@.subrange(0, i + 1).last() == fields@[i as int]);
                assert(fields@.subrange(0, i + 1).drop_last() =~= fields@.subrange(0, i as int));
                assert(env_model(out@) =~= mid + field_signatures(fields@.subrange(0, i + 1), name@));
                i += 1;
            }
            assert(fields@.subrange(0, i as int) =~= fields@);
            push_binding(out, copy_string(name), Ty::Named(copy_string(name)));
            assert(env_model(out@) =~= start + decl_signatures(*d));
        },
        _ => {
            assert(env_model(out@) =~= start + decl_signatures(*d));
        },
    }
}

impl TypeChecker {
    /// Brings typed parameters into scope.
    fn define_params(&mut self, params: &Vec<(std::string::String, Type)>)
        ensures
            final(self).tenv() == old(self).tenv() + param_bindings(params@),
            final(self).env@.len() >= old(self).env@.len(),
            final(self).env@.subrange(0, old(self).env@.len() as int) == old(self).env@,
            final(self).errors@ == old(self).errors@,
    {
        let mut i: usize = 0;
        while i < params.len()
            invariant
                i <= params@.len(),
                self.tenv() == old(self).tenv() + param_bindings(params@.subrange(0, i as int)),
                self.env@.len() >= old(self).env@.len(),
                self.env@.subrange(0, old(self).env@.len() as int) == old(self).env@,
                self.errors@ == old(self).errors@,
            decreases params.len() - i,
        {
            let ghost e0 = self.env@;
            let t = ast_type_to_ty(&params[i].1);
            self.define(copy_string(&params[i].0), t);
            assert(params@.subrange(0, i + 1).drop_last() =~= params@.subrange(0, i as int));
            assert(self.tenv() =~= old(self).tenv() + param_bindings(params@.subrange(0, i + 1)));
            assert(self.env@.subrange(0, old(self).env@.len() as int) =~= old(self).env@) by {
                assert(e0.subrange(0, old(self).env@.len() as int) == old(self).env@);
                assert(self.env@.subrange(0, e0.len() as int) == e0);
            }
            i += 1;
        }
        assert(params@.subrange(0, i as int) =~= params@);
    }

    /// Checks one declaration.
    fn check_decl(&mut self, decl: &Decl)
        requires
            all_type_errors(old(self).errors@),
        ensures
            final(self).reports_after(old(self), decl_reports(old(self).tenv(), *decl)),
        decreases decl,
    {
        let ghost env0 = self.tenv();
        let ghost s0 = *self;
        proof {
            Self::lemma_none(self);
        }
        match decl {
            Decl::FunDef { params, return_type, body, .. } => {
                let mark = self.env.len();
                self.define_params(params);
                let ghost s1 = *self;
                let bt = self.infer_expr(body);
                let ghost s2 = *self;
                let ghost b = infer(s1.tenv(), *body);
                match return_type {
                    Some(ret) => {
                        let expected = ast_type_to_ty(ret);
                        let sp = expr_span_of(body);
                        self.check_compatible(&expected, &bt, &sp);
                    },
                    None => {
                        proof {
                            Self::lemma_none(self);
                        }
                    },
                }
                let ghost extra = if return_type.is_some() {
                    compat_reports(ty_of(return_type->0), b.0, expr_span(*body))
                } else {
                    seq![]
                };
                self.pop_to(mark);
                assert(self.env@ =~= s0.env@);
                assert(type_reports(self.errors@) =~= type_reports(s0.errors@) + (b.1 + extra));
            },
            Decl::FunDefMatch { params, return_type, cases, .. } => {
                let mark = self.env.len();
                self.define_params(params);
                let ghost s1 = *self;
                let ghost env1 = self.tenv();
                let mut mps: Vec<Ty> = Vec::new();
                let actual = match return_type {
                    Some(rt) => {
                        let full = ast_type_to_ty(rt);
                        decompose_arrow(full, &mut mps)
                    },
                    None => Ty::Unknown,
                };
                let ghost pats = tys_model(mps@);
                assert(pats =~= (match *return_type {
                    Some(t) => arrow_params(ty_of(t)),
                    None => seq![],
                }));
                let mut i: usize = 0;
                proof {
                    Self::lemma_none(self);
                }
                while i < cases.len()
                    invariant
                        i <= cases@.len(),
                        env1 == s1.tenv(),
                        mark == s0.env@.len(),
                        s1.env@.len() >= mark,
                        s1.env@.subrange(0, mark as int) == s0.env@,
                        self.env@ == s1.env@,
                        pats == tys_model(mps@),
                        self.reports_after(&s1, cases_reports(env1, pats, actual@, cases@.subrange(0, i as int))),
                    decreases cases.len() - i,
                {
                    proof {
                        assert(cases@.subrange(0, i + 1).subrange(0, i as int) =~= cases@.subrange(0, i as int));
                    }
                    let ghost s2 = *self;
                    let mark2 = self.env.len();
                    self.define_pattern_list(&cases[i].0, &mps);
                    let bt = self.infer_expr(&cases[i].1);
                    let ghost b = infer(env1 + patterns_bindings(cases@[i as int].0@, pats), cases@[i as int].1);
                    let ghost s3 = *self;
                    let sp = expr_span_of(&cases[i].1);
                    self.check_compatible(&actual, &bt, &sp);
                    self.pop_to(mark2);
                    assert(self.env@ =~= s2.env@);
                    proof {
                        assert(type_reports(self.errors@) =~= type_reports(s2.errors@) + (b.1 + compat_reports(actual@, b.0, sp)));
                        Self::lemma_chain(&s1, &s2, self, cases_reports(env1, pats, actual@, cases@.subrange(0, i as int)), b.1 + compat_reports(actual@, b.0, sp));
                        assert(cases_reports(env1, pats, actual@, cases@.subrange(0, i as int)) + (b.1 + compat_reports(actual@, b.0, sp)) =~= cases_reports(env1, pats, actual@, cases@.subrange(0, i + 1)));
                    }
                    i += 1;
                }
                assert(cases@.subrange(0, i as int) =~= cases@);
                self.pop_to(mark);
                assert(self.env@ =~= s0.env@);
            },
            Decl::Eval(expr) => {
                self.infer_expr(expr);
            },
            Decl::Namespace { decls, .. } => {
                let mut i: usize = 0;
                while i < decls.len()
                    invariant
                        i <= decls@.len(),
                        *decl == (Decl::Namespace { name: decl->Namespace_name, decls: *decls }),
                        env0 == s0.tenv(),
                        self.reports_after(&s0, decls_reports(env0, decls@.subrange(0, i as int))),
                    decreases decls.len() - i,
                {
                    proof {
                        assert(decreases_to!(*decl => (*decl)->Namespace_decls));
                        assert(decreases_to!(*decls => decls[i as int]));
                        assert(decls@.subrange(0, i + 1).subrange(0, i as int) =~= decls@.subrange(0, i as int));
                    }
                    let ghost s1 = *self;
                    self.check_decl(&decls[i]);
                    proof {
                        Self::lemma_chain(&s0, &s1, self, decls_reports(env0, decls@.subrange(0, i as int)), decl_reports(env0, decls@[i as int]));
                    }
                    i += 1;
                }
                assert(decls@.subrange(0, i as int) =~= decls@);
            },
            _ => {},
        }
    }

    /// Type-checks a program: `Ok` when nothing is reported, otherwise one
    /// type error per report, in order.
    pub fn check(self, decls: &Vec<Decl>) -> (r: Result<(), Vec<CompilerError>>)
        requires
            self.fresh(),
        ensures
            r is Ok <==> decls_reports(program_types(decls@), decls@).len() == 0,
            r matches Err(es) ==> all_type_errors(es@) && type_reports(es@) == decls_reports(
                program_types(decls@),
                decls@,
            ),
    {
        let mut this = self;
        let mut i: usize = 0;
        let ghost base = this.tenv();
        while i < decls.len()
            invariant
                i <= decls@.len(),
                this.errors@.len() == 0,
                this.tenv() == base + decls_signatures(decls@.subrange(0, i as int)),
            decreases decls.len() - i,
        {
            collect_signatures(&decls[i], &mut this.env);
            assert(decls@.subrange(0, i + 1).drop_last() =~= decls@.subrange(0, i as int));
            assert(this.tenv() =~= base + decls_signatures(decls@.subrange(0, i + 1)));
            i += 1;
        }
        assert(decls@.subrange(0, i as int) =~= decls@);
        assert(this.tenv() == program_types(decls@));
        let ghost env0 = this.tenv();
        let ghost s0 = this;
        proof {
            assert(type_reports(this.errors@) =~= Seq::<Report>::empty());
            assert(all_type_errors(this.errors@));
        }
        let mut j: usize = 0;
        while j < decls.len()
            invariant
                j <= decls@.len(),
                env0 == s0.tenv(),
                s0.errors@.len() == 0,
                this.reports_after(&s0, decls_reports(env0, decls@.subrange(0, j as int))),
            decreases decls.len() - j,
        {
            let ghost s1 = this;
            this.check_decl(&decls[j]);
            proof {
                assert(decls@.subrange(0, j + 1).subrange(0, j as int) =~= decls@.subrange(0, j as int));
                Self::lemma_chain(&s0, &s1, &this, decls_reports(env0, decls@.subrange(0, j as int)), decl_reports(env0, decls@[j as int]));
            }
            j += 1;
        }
        assert(decls@.subrange(0, j as int) =~= decls@);
        assert(type_reports(s0.errors@) =~= Seq::<Report>::empty());
        assert(type_reports(this.errors@).len() == this.errors@.len());
        if this.errors.len() == 0 {
            Ok(())
        } else {
            Err(this.errors)
        }
    }
}

// ---------------------------------------------------------------------------
// Laws
// ---------------------------------------------------------------------------

/// Every type agrees with itself.
pub proof fn law_types_match_reflexive(t: TyModel)
    ensures
        types_match(t, t),
    decreases t,
{
    match t {
        TyModel::Arrow(a, b) => {
            law_types_match_reflexive(*a);
            law_types_match_reflexive(*b);
        },
        TyModel::Tuple(xs) => {
            lemma_all_match_reflexive(xs);
        },
        TyModel::List(a) => law_types_match_reflexive(*a),
        TyModel::Option(a) => law_types_match_reflexive(*a),
        _ => {},
    }
}

proof fn lemma_all_match_reflexive(xs: Seq<TyModel>)
    ensures
        all_match(xs, xs),
    decreases xs,
{
    if xs.len() > 0 {
        let p = xs.subrange(0, xs.len() - 1);
        lemma_all_match_reflexive(p);
        lemma_all_match_restrict(p, xs);
        assert(xs.subrange(0, p.len() as int) == p);
        law_types_match_reflexive(xs[xs.len() - 1]);
    }
}

/// Agreement of types does not depend on their order.
pub proof fn law_types_match_symmetric(a: TyModel, b: TyModel)
    ensures
        types_match(a, b) == types_match(b, a),
    decreases a,
{
    match (a, b) {
        (TyModel::Arrow(a1, a2), TyModel::Arrow(b1, b2)) => {
            law_types_match_symmetric(*a1, *b1);
            law_types_match_symmetric(*a2, *b2);
        },
        (TyModel::Tuple(xs), TyModel::Tuple(ys)) => {
            if xs.len() == ys.len() {
                lemma_all_match_symmetric(xs, ys);
            }
        },
        (TyModel::List(x), TyModel::List(y)) => law_types_match_symmetric(*x, *y),
        (TyModel::Option(x), TyModel::Option(y)) => law_types_match_symmetric(*x, *y),
        _ => {},
    }
}

/// Position-by-position agreement of two lists of equal length is symmetric.
proof fn lemma_all_match_symmetric(xs: Seq<TyModel>, ys: Seq<TyModel>)
    requires
        xs.len() == ys.len(),
    ensures
        all_match(xs, ys) == all_match(ys, xs),
    decreases xs,
{
    if xs.len() > 0 {
        let n = xs.len() - 1;
        let xp = xs.subrange(0, n);
        let yp = ys.subrange(0, n);
        lemma_all_match_symmetric(xp, yp);
        lemma_all_match_restrict(xp, ys);
        lemma_all_match_restrict(yp, xs);
        law_types_match_symmetric(xs[n], ys[n]);
        assert(xs.subrange(0, n) == xp);
        assert(ys.subrange(0, n) == yp);
    }
}

/// Matching `p` against `ys` reads only the first `p.len()` entries of `ys`.
proof fn lemma_all_match_restrict(p: Seq<TyModel>, ys: Seq<TyModel>)
    requires
        p.len() <= ys.len(),
    ensures
        all_match(p, ys) == all_match(p, ys.subrange(0, p.len() as int)),
    decreases p,
{
    if p.len() > 0 {
        let q = p.subrange(0, p.len() - 1);
        lemma_all_match_restrict(q, ys);
        lemma_all_match_restrict(q, ys.subrange(0, p.len() as int));
        assert(ys.subrange(0, p.len() as int).subrange(0, q.len() as int) =~= ys.subrange(0, q.len() as int));
    }
}

/// `Unknown` agrees with every type, on either side, so a check that
/// involves it never reports anything.
pub proof fn law_unknown_is_compatible(t: TyModel, span: Span)
    ensures
        types_match(TyModel::Unknown, t),
        types_match(t, TyModel::Unknown),
        compat_reports(TyModel::Unknown, t, span) == Seq::<Report>::empty(),
        compat_reports(t, TyModel::Unknown, span) == Seq::<Report>::empty(),
{
}

/// A type agreeing with itself, no check of a type against itself reports.
pub proof fn law_compatible_with_itself(t: TyModel, span: Span)
    ensures
        compat_reports(t, t, span) == Seq::<Report>::empty(),
{
    law_types_match_reflexive(t);
}

/// A comparison (`==`, `!=`, `<`, `<=`, `>`, `>=`) has type `Bool`, the type
/// of `true`, whatever its operands' types, and reports only what its operands
/// report. So a definition declared `: Bool` whose body is a comparison reports
/// nothing beyond what its operands report: comparing two `Nat`s there is no
/// mismatch.
pub proof fn law_comparison_is_bool(
    env: TyEnv,
    op: BinOp,
    lhs: Expr,
    rhs: Expr,
    name: String,
    params: Vec<(String, Type)>,
    t: Type,
)
    requires
        op is Eq || op is Ne || op is Lt || op is Le || op is Gt || op is Ge,
        ty_of(t) == TyModel::Bool,
    ensures
        infer(env, (Expr::BinOp { op, lhs: Box::new(lhs), rhs: Box::new(rhs) })).0 == TyModel::Bool,
        infer(env, (Expr::BinOp { op, lhs: Box::new(lhs), rhs: Box::new(rhs) })).0 == infer(
            env,
            Expr::BoolLit(true),
        ).0,
        infer(env, (Expr::BinOp { op, lhs: Box::new(lhs), rhs: Box::new(rhs) })).1 == infer(env, lhs).1
            + infer(env, rhs).1,
        decl_reports(
            env,
            (Decl::FunDef {
                name,
                params,
                return_type: Some(t),
                body: Expr::BinOp { op, lhs: Box::new(lhs), rhs: Box::new(rhs) },
            }),
        ) == infer(env + param_bindings(params@), lhs).1 + infer(env + param_bindings(params@), rhs).1,
{
    let body = Expr::BinOp { op, lhs: Box::new(lhs), rhs: Box::new(rhs) };
    let inner = env + param_bindings(params@);
    assert(infer(inner, body).0 == TyModel::Bool);
    law_compatible_with_itself(TyModel::Bool, expr_span(body));
    assert(compat_reports(ty_of(t), infer(inner, body).0, expr_span(body)) =~= Seq::<Report>::empty());
    assert(infer(inner, body).1 + Seq::<Report>::empty() =~= infer(inner, body).1);
}

/// Arithmetic (`+`, `-`, `*`, `/`, `%`) on two operands of one numeric type
/// has that type and reports only what its operands report.
pub proof fn law_arithmetic_keeps_type(env: TyEnv, op: BinOp, lhs: Expr, rhs: Expr)
    requires
        op is Add || op is Sub || op is Mul || op is Div || op is Mod,
        infer(env, lhs).0 is Nat || infer(env, lhs).0 is Int,
        infer(env, rhs).0 == infer(env, lhs).0,
    ensures
        infer(env, (Expr::BinOp { op, lhs: Box::new(lhs), rhs: Box::new(rhs) })).0 == infer(env, lhs).0,
        infer(env, (Expr::BinOp { op, lhs: Box::new(lhs), rhs: Box::new(rhs) })).1 == infer(env, lhs).1
            + infer(env, rhs).1,
{
    let l = infer(env, lhs);
    let r = infer(env, rhs);
    assert(numeric_reports(l.0, expr_span(lhs)) =~= Seq::<Report>::empty());
    assert(numeric_reports(r.0, expr_span(rhs)) =~= Seq::<Report>::empty());
    assert(l.1 + r.1 + Seq::<Report>::empty() + Seq::<Report>::empty() =~= l.1 + r.1);
}

/// `&&` and `||` have type `Bool`; on two `Bool` operands they report only
/// what the operands report.
pub proof fn law_connective_is_bool(env: TyEnv, op: BinOp, lhs: Expr, rhs: Expr)
    requires
        op is And || op is Or,
    ensures
        infer(env, (Expr::BinOp { op, lhs: Box::new(lhs), rhs: Box::new(rhs) })).0 == TyModel::Bool,
        infer(env, lhs).0 == TyModel::Bool && infer(env, rhs).0 == TyModel::Bool ==> infer(
            env,
            (Expr::BinOp { op, lhs: Box::new(lhs), rhs: Box::new(rhs) }),
        ).1 == infer(env, lhs).1 + infer(env, rhs).1,
{
    let l = infer(env, lhs);
    let r = infer(env, rhs);
    if l.0 == TyModel::Bool && r.0 == TyModel::Bool {
        law_compatible_with_itself(TyModel::Bool, expr_span(lhs));
        law_compatible_with_itself(TyModel::Bool, expr_span(rhs));
        assert(l.1 + r.1 + Seq::<Report>::empty() + Seq::<Report>::empty() =~= l.1 + r.1);
    }
}

} // verus!
