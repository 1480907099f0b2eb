//! The abstract syntax tree that the parser builds and the later passes read.

use vstd::prelude::*;

use crate::error::Span;
use crate::text::push_char;

verus! {

#[derive(Debug, Clone)]
pub struct ModulePath {
    pub segments: Vec<String>,
}

/// The segments joined by `sep`.
pub open spec fn join_with(segments: Seq<Seq<char>>, sep: char) -> Seq<char>
    decreases segments.len(),
{
    if segments.len() == 0 {
        seq![]
    } else if segments.len() == 1 {
        segments[0]
    } else {
        join_with(segments.drop_last(), sep) + seq![sep] + segments.last()
    }
}

/// The views of a list of strings.
pub open spec fn views(v: Seq<String>) -> Seq<Seq<char>> {
    v.map_values(|s: String| s@)
}

/// Appends the strings of `v` joined by `sep`.
pub fn push_joined(out: &mut String, v: &Vec<String>, sep: char)
    ensures
        final(out)@ == old(out)@ + join_with(views(v@), sep),
{
    let ghost start = out@;
    let mut i: usize = 0;
    while i < v.len()
        invariant
            i <= v@.len(),
            out@ == start + join_with(views(v@.subrange(0, i as int)), sep),
        decreases v.len() - i,
    {
        let ghost prev = views(v@.subrange(0, i as int));
        assert(views(v@.subrange(0, i + 1)).drop_last() =~= prev);
        if i > 0 {
            push_char(out, sep);
        } else {
            assert(out@ =~= start);
        }
        out.append(v[i].as_str());
        assert(views(v@.subrange(0, i + 1)).last() == v@[i as int]@);
        proof {
            if i > 0 {
                assert(out@ =~= start + (join_with(prev, sep) + seq![sep] + v@[i as int]@));
            } else {
                assert(out@ =~= start + v@[i as int]@);
            }
        }
        i += 1;
    }
    assert(v@.subrange(0, v@.len() as int) =~= v@);
}

impl ModulePath {
    /// The path of the module's source file: segments joined by `/`, then `.lean`.
    pub fn to_file_path(&self) -> (r: String)
        ensures
            r@ == join_with(views(self.segments@), '/') + ".lean"@,
    {
        let mut out = String::new();
        push_joined(&mut out, &self.segments, '/');
        out.append(".lean");
        out
    }
}

#[derive(Debug)]
pub enum Decl {
    FunDef { name: String, params: Vec<(String, Type)>, return_type: Option<Type>, body: Expr },
    FunDefMatch {
        name: String,
        params: Vec<(String, Type)>,
        return_type: Option<Type>,
        cases: Vec<(Vec<Pattern>, Expr)>,
    },
    InductiveDef { name: String, constructors: Vec<Constructor> },
    StructDef { name: String, fields: Vec<(String, Type)> },
    Eval(Expr),
    Import { path: ModulePath },
    Open { path: ModulePath },
    Namespace { name: String, decls: Vec<Decl> },
}

#[derive(Debug)]
pub struct Constructor {
    pub name: String,
    pub fields: Vec<Type>,
}

#[derive(Debug)]
pub enum Expr {
    IntLit(u64),
    StringLit(String),
    BoolLit(bool),
    Var(String, Span),
    BinOp { op: BinOp, lhs: Box<Expr>, rhs: Box<Expr> },
    UnaryOp { op: UnaryOp, operand: Box<Expr> },
    FunApp { func: Box<Expr>, arg: Box<Expr> },
    If { cond: Box<Expr>, then_branch: Box<Expr>, else_branch: Box<Expr> },
    Let { name: String, ty: Option<Type>, value: Box<Expr>, body: Box<Expr> },
    Match { scrutinee: Box<Expr>, arms: Vec<MatchArm> },
    Do(Vec<DoStatement>),
    Lambda { params: Vec<(String, Option<Type>)>, body: Box<Expr> },
    Paren(Box<Expr>),
    Tuple(Vec<Expr>),
    StringInterpolation(Vec<StringInterpPart>),
}

#[derive(Debug)]
pub enum StringInterpPart {
    Literal(String),
    Expr(Expr),
}

#[derive(Debug)]
pub struct MatchArm {
    pub pattern: Pattern,
    pub body: Expr,
}

#[derive(Debug, Clone, Copy, PartialEq, Eq, Structural)]
pub enum BinOp {
    Add,
    Sub,
    Mul,
    Div,
    Mod,
    Eq,
    Ne,
    Lt,
    Le,
    Gt,
    Ge,
    And,
    Or,
}

#[derive(Debug, Clone, Copy, PartialEq, Eq, Structural)]
pub enum UnaryOp {
    Not,
    Neg,
}

#[derive(Debug)]
pub enum Type {
    Named(String),
    Arrow(Box<Type>, Box<Type>),
    App(Box<Type>, Box<Type>),
    Tuple(Vec<Type>),
    Unit,
}

#[derive(Debug)]
pub enum Pattern {
    IntLit(u64),
    Var(String),
    Constructor(String, Vec<Pattern>),
    Wildcard,
    Successor(String, u64),
    Tuple(Vec<Pattern>),
}

#[derive(Debug)]
pub enum DoStatement {
    Expr(Expr),
    Let(String, Expr),
}

// ---------------------------------------------------------------------------
// Models: the syntax tree with its names as plain character sequences. They
// are what the parser's contract and the spec of the grammar speak of.
// ---------------------------------------------------------------------------

pub enum TypeModel {
    Named(Seq<char>),
    Arrow(Box<TypeModel>, Box<TypeModel>),
    App(Box<TypeModel>, Box<TypeModel>),
    Tuple(Seq<TypeModel>),
    Unit,
}

pub open spec fn type_model(t: Type) -> TypeModel
    decreases t,
{
    match t {
        Type::Named(n) => TypeModel::Named(n@),
        Type::Arrow(a, b) => TypeModel::Arrow(Box::new(type_model(*a)), Box::new(type_model(*b))),
        Type::App(a, b) => TypeModel::App(Box::new(type_model(*a)), Box::new(type_model(*b))),
        Type::Tuple(ts) => TypeModel::Tuple(types_model(ts@)),
        Type::Unit => TypeModel::Unit,
    }
}

pub open spec fn types_model(ts: Seq<Type>) -> Seq<TypeModel>
    decreases ts,
{
    if ts.len() == 0 {
        seq![]
    } else {
        types_model(ts.subrange(0, ts.len() - 1)).push(type_model(ts[ts.len() - 1]))
    }
}

impl View for Type {
    type V = TypeModel;

    open spec fn view(&self) -> TypeModel {
        type_model(*self)
    }
}

pub open spec fn opt_type_model(t: Option<Type>) -> Option<TypeModel> {
    match t {
        Some(ty) => Some(type_model(ty)),
        None => None,
    }
}

/// Named, typed parameters or fields.
pub open spec fn typed_names_model(ps: Seq<(String, Type)>) -> Seq<(Seq<char>, TypeModel)> {
    ps.map_values(|p: (String, Type)| (p.0@, type_model(p.1)))
}

pub enum PatternModel {
    IntLit(u64),
    Var(Seq<char>),
    Constructor(Seq<char>, Seq<PatternModel>),
    Wildcard,
    Successor(Seq<char>, u64),
    Tuple(Seq<PatternModel>),
}

pub open spec fn pattern_model(p: Pattern) -> PatternModel
    decreases p,
{
    match p {
        Pattern::IntLit(n) => PatternModel::IntLit(n),
        Pattern::Var(n) => PatternModel::Var(n@),
        Pattern::Constructor(n, args) => PatternModel::Constructor(n@, patterns_model(args@)),
        Pattern::Wildcard => PatternModel::Wildcard,
        Pattern::Successor(n, k) => PatternModel::Successor(n@, k),
        Pattern::Tuple(ps) => PatternModel::Tuple(patterns_model(ps@)),
    }
}

pub open spec fn patterns_model(ps: Seq<Pattern>) -> Seq<PatternModel>
    decreases ps,
{
    if ps.len() == 0 {
        seq![]
    } else {
        patterns_model(ps.subrange(0, ps.len() - 1)).push(pattern_model(ps[ps.len() - 1]))
    }
}


pub proof fn lemma_types_model_push(ts: Seq<Type>, t: Type)
    ensures
        types_model(ts.push(t)) == types_model(ts).push(type_model(t)),
{
    assert(ts.push(t).subrange(0, ts.len() as int) =~= ts);
}

pub proof fn lemma_patterns_model_push(ps: Seq<Pattern>, p: Pattern)
    ensures
        patterns_model(ps.push(p)) == patterns_model(ps).push(pattern_model(p)),
{
    assert(ps.push(p).subrange(0, ps.len() as int) =~= ps);
}

impl View for Pattern {
    type V = PatternModel;

    open spec fn view(&self) -> PatternModel {
        pattern_model(*self)
    }
}

pub enum ExprModel {
    IntLit(u64),
    StringLit(Seq<char>),
    BoolLit(bool),
    Var(Seq<char>, Span),
    BinOp { op: BinOp, lhs: Box<ExprModel>, rhs: Box<ExprModel> },
    UnaryOp { op: UnaryOp, operand: Box<ExprModel> },
    FunApp { func: Box<ExprModel>, arg: Box<ExprModel> },
    If { cond: Box<ExprModel>, then_branch: Box<ExprModel>, else_branch: Box<ExprModel> },
    Let { name: Seq<char>, ty: Option<TypeModel>, value: Box<ExprModel>, body: Box<ExprModel> },
    Match { scrutinee: Box<ExprModel>, arms: Seq<(PatternModel, ExprModel)> },
    Do(Seq<StmtModel>),
    Lambda { params: Seq<(Seq<char>, Option<TypeModel>)>, body: Box<ExprModel> },
    Paren(Box<ExprModel>),
    Tuple(Seq<ExprModel>),
    StringInterpolation(Seq<PartModel>),
}

pub enum PartModel {
    Literal(Seq<char>),
    Expr(ExprModel),
}

pub enum StmtModel {
    Expr(ExprModel),
    Let(Seq<char>, ExprModel),
}

pub open spec fn expr_model(e: Expr) -> ExprModel
    decreases e,
{
    match e {
        Expr::IntLit(n) => ExprModel::IntLit(n),
        Expr::StringLit(s) => ExprModel::StringLit(s@),
        Expr::BoolLit(b) => ExprModel::BoolLit(b),
        Expr::Var(n, sp) => ExprModel::Var(n@, sp),
        Expr::BinOp { op, lhs, rhs } => ExprModel::BinOp {
            op,
            lhs: Box::new(expr_model(*lhs)),
            rhs: Box::new(expr_model(*rhs)),
        },
        Expr::UnaryOp { op, operand } => ExprModel::UnaryOp {
            op,
            operand: Box::new(expr_model(*operand)),
        },
        Expr::FunApp { func, arg } => ExprModel::FunApp {
            func: Box::new(expr_model(*func)),
            arg: Box::new(expr_model(*arg)),
        },
        Expr::If { cond, then_branch, else_branch } => ExprModel::If {
            cond: Box::new(expr_model(*cond)),
            then_branch: Box::new(expr_model(*then_branch)),
            else_branch: Box::new(expr_model(*else_branch)),
        },
        Expr::Let { name, ty, value, body } => ExprModel::Let {
            name: name@,
            ty: opt_type_model(ty),
            value: Box::new(expr_model(*value)),
            body: Box::new(expr_model(*body)),
        },
        Expr::Match { scrutinee, arms } => ExprModel::Match {
            scrutinee: Box::new(expr_model(*scrutinee)),
            arms: arms_model(arms@),
        },
        Expr::Do(stmts) => ExprModel::Do(stmts_model(stmts@)),
        Expr::Lambda { params, body } => ExprModel::Lambda {
            params: params@.map_values(|p: (String, Option<Type>)| (p.0@, opt_type_model(p.1))),
            body: Box::new(expr_model(*body)),
        },
        Expr::Paren(inner) => ExprModel::Paren(Box::new(expr_model(*inner))),
        Expr::Tuple(es) => ExprModel::Tuple(exprs_model(es@)),
        Expr::StringInterpolation(parts) => ExprModel::StringInterpolation(parts_model(parts@)),
    }
}

pub open spec fn exprs_model(es: Seq<Expr>) -> Seq<ExprModel>
    decreases es,
{
    if es.len() == 0 {
        seq![]
    } else {
        exprs_model(es.subrange(0, es.len() - 1)).push(expr_model(es[es.len() - 1]))
    }
}

pub open spec fn arms_model(arms: Seq<MatchArm>) -> Seq<(PatternModel, ExprModel)>
    decreases arms,
{
    if arms.len() == 0 {
        seq![]
    } else {
        let a = arms[arms.len() - 1];
        arms_model(arms.subrange(0, arms.len() - 1)).push((pattern_model(a.pattern), expr_model(a.body)))
    }
}

pub open spec fn stmts_model(stmts: Seq<DoStatement>) -> Seq<StmtModel>
    decreases stmts,
{
    if stmts.len() == 0 {
        seq![]
    } else {
        let m = match stmts[stmts.len() - 1] {
            DoStatement::Expr(e) => StmtModel::Expr(expr_model(e)),
            DoStatement::Let(n, e) => StmtModel::Let(n@, expr_model(e)),
        };
        stmts_model(stmts.subrange(0, stmts.len() - 1)).push(m)
    }
}

pub open spec fn parts_model(parts: Seq<StringInterpPart>) -> Seq<PartModel>
    decreases parts,
{
    if parts.len() == 0 {
        seq![]
    } else {
        let m = match parts[parts.len() - 1] {
            StringInterpPart::Literal(s) => PartModel::Literal(s@),
            StringInterpPart::Expr(e) => PartModel::Expr(expr_model(e)),
        };
        parts_model(parts.subrange(0, parts.len() - 1)).push(m)
    }
}


pub proof fn lemma_exprs_model_push(es: Seq<Expr>, e: Expr)
    ensures
        exprs_model(es.push(e)) == exprs_model(es).push(expr_model(e)),
{
    assert(es.push(e).subrange(0, es.len() as int) =~= es);
}

pub proof fn lemma_arms_model_push(arms: Seq<MatchArm>, a: MatchArm)
    ensures
        arms_model(arms.push(a)) == arms_model(arms).push((pattern_model(a.pattern), expr_model(a.body))),
{
    assert(arms.push(a).subrange(0, arms.len() as int) =~= arms);
}

pub proof fn lemma_stmts_model_push(stmts: Seq<DoStatement>, st: DoStatement)
    ensures
        stmts_model(stmts.push(st)) == stmts_model(stmts).push(
            match st {
                DoStatement::Expr(e) => StmtModel::Expr(expr_model(e)),
                DoStatement::Let(n, e) => StmtModel::Let(n@, expr_model(e)),
            },
        ),
{
    assert(stmts.push(st).subrange(0, stmts.len() as int) =~= stmts);
}

pub proof fn lemma_parts_model_push(parts: Seq<StringInterpPart>, p: StringInterpPart)
    ensures
        parts_model(parts.push(p)) == parts_model(parts).push(
            match p {
                StringInterpPart::Literal(s) => PartModel::Literal(s@),
                StringInterpPart::Expr(e) => PartModel::Expr(expr_model(e)),
            },
        ),
{
    assert(parts.push(p).subrange(0, parts.len() as int) =~= parts);
}

impl View for Expr {
    type V = ExprModel;

    open spec fn view(&self) -> ExprModel {
        expr_model(*self)
    }
}

pub enum DeclModel {
    FunDef {
        name: Seq<char>,
        params: Seq<(Seq<char>, TypeModel)>,
        return_type: Option<TypeModel>,
        body: ExprModel,
    },
    FunDefMatch {
        name: Seq<char>,
        params: Seq<(Seq<char>, TypeModel)>,
        return_type: Option<TypeModel>,
        cases: Seq<(Seq<PatternModel>, ExprModel)>,
    },
    InductiveDef { name: Seq<char>, constructors: Seq<(Seq<char>, Seq<TypeModel>)> },
    StructDef { name: Seq<char>, fields: Seq<(Seq<char>, TypeModel)> },
    Eval(ExprModel),
    Import(Seq<Seq<char>>),
    Open(Seq<Seq<char>>),
    Namespace { name: Seq<char>, decls: Seq<DeclModel> },
}

pub open spec fn decl_model(d: Decl) -> DeclModel
    decreases d,
{
    match d {
        Decl::FunDef { name, params, return_type, body } => DeclModel::FunDef {
            name: name@,
            params: typed_names_model(params@),
            return_type: opt_type_model(return_type),
            body: expr_model(body),
        },
        Decl::FunDefMatch { name, params, return_type, cases } => DeclModel::FunDefMatch {
            name: name@,
            params: typed_names_model(params@),
            return_type: opt_type_model(return_type),
            cases: cases@.map_values(
                |c: (Vec<Pattern>, Expr)| (patterns_model(c.0@), expr_model(c.1)),
            ),
        },
        Decl::InductiveDef { name, constructors } => DeclModel::InductiveDef {
            name: name@,
            constructors: constructors@.map_values(
                |c: Constructor| (c.name@, types_model(c.fields@)),
            ),
        },
        Decl::StructDef { name, fields } => DeclModel::StructDef {
            name: name@,
            fields: typed_names_model(fields@),
        },
        Decl::Eval(e) => DeclModel::Eval(expr_model(e)),
        Decl::Import { path } => DeclModel::Import(views(path.segments@)),
        Decl::Open { path } => DeclModel::Open(views(path.segments@)),
        Decl::Namespace { name, decls } => DeclModel::Namespace {
            name: name@,
            decls: decls_model(decls@),
        },
    }
}

pub open spec fn decls_model(ds: Seq<Decl>) -> Seq<DeclModel>
    decreases ds,
{
    if ds.len() == 0 {
        seq![]
    } else {
        decls_model(ds.subrange(0, ds.len() - 1)).push(decl_model(ds[ds.len() - 1]))
    }
}


pub proof fn lemma_decls_model_push(ds: Seq<Decl>, d: Decl)
    ensures
        decls_model(ds.push(d)) == decls_model(ds).push(decl_model(d)),
{
    assert(ds.push(d).subrange(0, ds.len() as int) =~= ds);
}


pub proof fn lemma_decls_model_concat(a: Seq<Decl>, b: Seq<Decl>)
    ensures
        decls_model(a + b) == decls_model(a) + decls_model(b),
    decreases b.len(),
{
    if b.len() == 0 {
        assert(a + b =~= a);
        assert(decls_model(a) + decls_model(b) =~= decls_model(a));
    } else {
        let b0 = b.subrange(0, b.len() - 1);
        lemma_decls_model_concat(a, b0);
        assert((a + b).subrange(0, (a + b).len() - 1) =~= a + b0);
        assert(decls_model(a) + decls_model(b) =~= (decls_model(a) + decls_model(b0)).push(
            decl_model(b[b.len() - 1]),
        ));
    }
}

impl View for Decl {
    type V = DeclModel;

    open spec fn view(&self) -> DeclModel {
        decl_model(*self)
    }
}

} // verus!
