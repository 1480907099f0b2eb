//! Name resolution: reports every variable that no enclosing scope defines.

use vstd::prelude::*;

use crate::ast::{views, Constructor, Decl, DoStatement, Expr, MatchArm, Pattern, StringInterpPart, Type};
use crate::error::{CompilerError, Span};
use crate::text::{chars_of, copy_string, push_char};

verus! {

// ---------------------------------------------------------------------------
// The scoping rules
// ---------------------------------------------------------------------------

/// `a.b`.
pub open spec fn dotted(a: Seq<char>, b: Seq<char>) -> Seq<char> {
    a + seq!['.'] + b
}

/// Whether `s` parses as a `usize` (what `str::parse::<usize>` accepts: an
/// optional `+`, then one or more decimal digits, within range).
pub open spec fn parses_as_usize(s: Seq<char>) -> bool {
    usize_digits_ok(unsigned_digits(s))
}

/// `s` without a leading `+`.
pub open spec fn unsigned_digits(s: Seq<char>) -> Seq<char> {
    if s.len() > 0 && s[0] == '+' {
        s.drop_first()
    } else {
        s
    }
}

/// Whether `d` is one or more decimal digits with a value that fits a `usize`.
pub open spec fn usize_digits_ok(d: Seq<char>) -> bool {
    &&& d.len() > 0
    &&& forall|i: int| 0 <= i < d.len() ==> crate::lexer::is_digit(#[trigger] d[i])
    &&& crate::lexer::digits_value(d) <= usize::MAX
}

/// The position of the last `.` in `s`, if any.
pub open spec fn last_dot(s: Seq<char>) -> Option<int>
    decreases s.len(),
{
    if s.len() == 0 {
        None
    } else if s.last() == '.' {
        Some(s.len() - 1)
    } else {
        last_dot(s.drop_last())
    }
}

/// Whether `name` is a tuple field access `base.n` whose base is defined.
pub open spec fn is_tuple_access(env: Seq<Seq<char>>, name: Seq<char>) -> bool {
    match last_dot(name) {
        Some(d) => parses_as_usize(name.subrange(d + 1, name.len() as int)) && env.contains(
            name.subrange(0, d),
        ),
        None => false,
    }
}

/// Whether a variable occurrence resolves in `env`.
pub open spec fn resolves(env: Seq<Seq<char>>, name: Seq<char>) -> bool {
    env.contains(name) || is_tuple_access(env, name)
}

/// The variables a pattern binds, in order.
pub open spec fn pattern_vars(p: Pattern) -> Seq<Seq<char>>
    decreases p,
{
    match p {
        Pattern::Var(n) => seq![n@],
        Pattern::Constructor(_, args) => patterns_vars(args@),
        Pattern::Successor(n, _) => seq![n@],
        Pattern::Tuple(ps) => patterns_vars(ps@),
        _ => seq![],
    }
}

pub open spec fn patterns_vars(ps: Seq<Pattern>) -> Seq<Seq<char>>
    decreases ps,
{
    if ps.len() == 0 {
        seq![]
    } else {
        patterns_vars(ps.subrange(0, ps.len() - 1)) + pattern_vars(ps[ps.len() - 1])
    }
}

/// The names of typed parameters.
pub open spec fn param_names(ps: Seq<(String, Type)>) -> Seq<Seq<char>> {
    ps.map_values(|p: (String, Type)| p.0@)
}

/// The names of lambda parameters.
pub open spec fn lambda_names(ps: Seq<(String, Option<Type>)>) -> Seq<Seq<char>> {
    ps.map_values(|p: (String, Option<Type>)| p.0@)
}

/// The names that the `let` statements of a `do` block define, in order.
pub open spec fn do_defs(stmts: Seq<DoStatement>) -> Seq<Seq<char>>
    decreases stmts.len(),
{
    if stmts.len() == 0 {
        seq![]
    } else {
        do_defs(stmts.drop_last()) + match stmts.last() {
            DoStatement::Let(n, _) => seq![n@],
            DoStatement::Expr(_) => seq![],
        }
    }
}

/// The unresolved variable occurrences of `e` in `env`, in source order.
pub open spec fn expr_errs(env: Seq<Seq<char>>, e: Expr) -> Seq<(Seq<char>, Span)>
    decreases e,
{
    match e {
        Expr::Var(name, span) => if resolves(env, name@) {
            seq![]
        } else {
            seq![(name@, span)]
        },
        Expr::BinOp { lhs, rhs, .. } => expr_errs(env, *lhs) + expr_errs(env, *rhs),
        Expr::UnaryOp { operand, .. } => expr_errs(env, *operand),
        Expr::FunApp { func, arg } => expr_errs(env, *func) + expr_errs(env, *arg),
        Expr::If { cond, then_branch, else_branch } => expr_errs(env, *cond) + expr_errs(
            env,
            *then_branch,
        ) + expr_errs(env, *else_branch),
        Expr::Let { name, value, body, .. } => expr_errs(env, *value) + expr_errs(
            env.push(name@),
            *body,
        ),
        Expr::Match { scrutinee, arms } => expr_errs(env, *scrutinee) + arms_errs(env, arms@),
        Expr::Do(stmts) => do_errs(env, stmts@),
        Expr::Lambda { params, body } => expr_errs(env + lambda_names(params@), *body),
        Expr::Paren(inner) => expr_errs(env, *inner),
        Expr::Tuple(elems) => exprs_errs(env, elems@),
        Expr::StringInterpolation(parts) => parts_errs(env, parts@),
        _ => seq![],
    }
}

pub open spec fn arms_errs(env: Seq<Seq<char>>, arms: Seq<MatchArm>) -> Seq<(Seq<char>, Span)>
    decreases arms,
{
    if arms.len() == 0 {
        seq![]
    } else {
        arms_errs(env, arms.subrange(0, arms.len() - 1)) + expr_errs(
            env + pattern_vars(arms[arms.len() - 1].pattern),
            arms[arms.len() - 1].body,
        )
    }
}

pub open spec fn do_errs(env: Seq<Seq<char>>, stmts: Seq<DoStatement>) -> Seq<(Seq<char>, Span)>
    decreases stmts,
{
    if stmts.len() == 0 {
        seq![]
    } else {
        let prefix = stmts.subrange(0, stmts.len() - 1);
        let inner = env + do_defs(prefix);
        do_errs(env, prefix) + match stmts[stmts.len() - 1] {
            DoStatement::Expr(e) => expr_errs(inner, e),
            DoStatement::Let(_, v) => expr_errs(inner, v),
        }
    }
}

pub open spec fn exprs_errs(env: Seq<Seq<char>>, es: Seq<Expr>) -> Seq<(Seq<char>, Span)>
    decreases es,
{
    if es.len() == 0 {
        seq![]
    } else {
        exprs_errs(env, es.subrange(0, es.len() - 1)) + expr_errs(env, es[es.len() - 1])
    }
}

pub open spec fn parts_errs(env: Seq<Seq<char>>, ps: Seq<StringInterpPart>) -> Seq<(Seq<char>, Span)>
    decreases ps,
{
    if ps.len() == 0 {
        seq![]
    } else {
        parts_errs(env, ps.subrange(0, ps.len() - 1)) + match ps[ps.len() - 1] {
            StringInterpPart::Expr(e) => expr_errs(env, e),
            StringInterpPart::Literal(_) => seq![],
        }
    }
}

/// The unresolved occurrences in the cases of a pattern-matching definition.
pub open spec fn cases_errs(env: Seq<Seq<char>>, cases: Seq<(Vec<Pattern>, Expr)>) -> Seq<
    (Seq<char>, Span),
>
    decreases cases,
{
    if cases.len() == 0 {
        seq![]
    } else {
        let c = cases[cases.len() - 1];
        cases_errs(env, cases.subrange(0, cases.len() - 1)) + expr_errs(
            env + patterns_vars(c.0@),
            c.1,
        )
    }
}

/// The unresolved occurrences in a declaration.
pub open spec fn decl_errs(env: Seq<Seq<char>>, d: Decl) -> Seq<(Seq<char>, Span)>
    decreases d,
{
    match d {
        Decl::FunDef { params, body, .. } => expr_errs(env + param_names(params@), body),
        Decl::FunDefMatch { params, cases, .. } => cases_errs(env + param_names(params@), cases@),
        Decl::Eval(e) => expr_errs(env, e),
        Decl::Namespace { decls, .. } => decls_errs(env, decls@),
        _ => seq![],
    }
}

pub open spec fn decls_errs(env: Seq<Seq<char>>, ds: Seq<Decl>) -> Seq<(Seq<char>, Span)>
    decreases ds,
{
    if ds.len() == 0 {
        seq![]
    } else {
        decls_errs(env, ds.subrange(0, ds.len() - 1)) + decl_errs(env, ds[ds.len() - 1])
    }
}


/// `prefix.name`, or nothing when there is no prefix.
pub open spec fn opt_prefixed(prefix: Seq<char>, name: Seq<char>) -> Seq<Seq<char>> {
    if prefix.len() == 0 {
        seq![]
    } else {
        seq![dotted(prefix, name)]
    }
}

/// The names a declaration introduces at top level, under `prefix`.
pub open spec fn decl_names(d: Decl, prefix: Seq<char>) -> Seq<Seq<char>>
    decreases d,
{
    match d {
        Decl::FunDef { name, .. } => seq![name@] + opt_prefixed(prefix, name@),
        Decl::FunDefMatch { name, .. } => seq![name@] + opt_prefixed(prefix, name@),
        Decl::InductiveDef { name, constructors } => seq![name@] + opt_prefixed(prefix, name@)
            + ctor_names(constructors@, name@, prefix),
        Decl::StructDef { name, fields } => seq![name@] + opt_prefixed(prefix, name@) + seq![
            dotted(name@, "mk"@),
        ] + opt_prefixed(prefix, dotted(name@, "mk"@)) + field_names(fields@, name@, prefix),
        Decl::Namespace { name, decls } => seq![name@] + opt_prefixed(prefix, name@) + decls_names(
            decls@,
            name@,
        ) + if prefix.len() == 0 {
            seq![]
        } else {
            decls_names(decls@, dotted(prefix, name@))
        },
        _ => seq![],
    }
}

pub open spec fn decls_names(ds: Seq<Decl>, prefix: Seq<char>) -> Seq<Seq<char>>
    decreases ds,
{
    if ds.len() == 0 {
        seq![]
    } else {
        decls_names(ds.subrange(0, ds.len() - 1), prefix) + decl_names(ds[ds.len() - 1], prefix)
    }
}

pub open spec fn ctor_names(cs: Seq<Constructor>, tname: Seq<char>, prefix: Seq<char>) -> Seq<
    Seq<char>,
>
    decreases cs.len(),
{
    if cs.len() == 0 {
        seq![]
    } else {
        let c = cs.last().name@;
        ctor_names(cs.drop_last(), tname, prefix) + seq![c, dotted(tname, c)] + opt_prefixed(
            prefix,
            dotted(tname, c),
        )
    }
}

pub open spec fn field_names(fs: Seq<(String, Type)>, sname: Seq<char>, prefix: Seq<char>) -> Seq<
    Seq<char>,
>
    decreases fs.len(),
{
    if fs.len() == 0 {
        seq![]
    } else {
        let f = fs.last().0@;
        field_names(fs.drop_last(), sname, prefix) + seq![dotted(sname, f)] + opt_prefixed(
            prefix,
            dotted(sname, f),
        )
    }
}

/// The alias `open` adds for `n`: what follows the namespace prefix `pfx`,
/// when that has no `.` of its own.
pub open spec fn alias_of(n: Seq<char>, pfx: Seq<char>) -> Seq<Seq<char>> {
    if pfx.len() <= n.len() && n.subrange(0, pfx.len() as int) == pfx && !n.subrange(
        pfx.len() as int,
        n.len() as int,
    ).contains('.') {
        seq![n.subrange(pfx.len() as int, n.len() as int)]
    } else {
        seq![]
    }
}

pub open spec fn aliases(scope: Seq<Seq<char>>, pfx: Seq<char>) -> Seq<Seq<char>>
    decreases scope.len(),
{
    if scope.len() == 0 {
        seq![]
    } else {
        aliases(scope.drop_last(), pfx) + alias_of(scope.last(), pfx)
    }
}

/// The top-level scope after each `open` (in order) has added its aliases.
pub open spec fn opens_applied(ds: Seq<Decl>, scope: Seq<Seq<char>>) -> Seq<Seq<char>>
    decreases ds.len(),
{
    if ds.len() == 0 {
        scope
    } else {
        let s = opens_applied(ds.drop_last(), scope);
        match ds.last() {
            Decl::Open { path } => s + aliases(
                s,
                crate::ast::join_with(views(path.segments@), '.') + seq!['.'],
            ),
            _ => s,
        }
    }
}

/// The names that are always defined.
pub open spec fn builtin_names() -> Seq<Seq<char>> {
    seq![
        "IO.println"@,
        "toString"@,
        "()"@,
        "List.nil"@,
        "List.cons"@,
        "Option.none"@,
        "Option.some"@,
    ]
}

/// The scope a program's declarations are resolved in.
pub open spec fn program_env(ds: Seq<Decl>) -> Seq<Seq<char>> {
    builtin_names() + opens_applied(ds, decls_names(ds, seq![]))
}

/// The report for an unresolved occurrence.
pub open spec fn undefined_message(name: Seq<char>) -> Seq<char> {
    "undefined variable `"@ + name + "`"@
}

/// The message and span of each report, in order.
pub open spec fn messages(list: Seq<(Seq<char>, Span)>) -> Seq<(Seq<char>, Span)> {
    list.map_values(|p: (Seq<char>, Span)| (undefined_message(p.0), p.1))
}

/// The message and span of each resolution error.
pub open spec fn reported(es: Seq<CompilerError>) -> Seq<(Seq<char>, Span)> {
    es.map_values(
        |e: CompilerError|
            match e {
                CompilerError::ResolveError { msg, span } => (msg@, span),
                _ => (seq![], Span { line: 0, column: 0, end_column: 0 }),
            },
    )
}

pub open spec fn all_resolve_errors(es: Seq<CompilerError>) -> bool {
    forall|i: int| 0 <= i < es.len() ==> (#[trigger] es[i]) is ResolveError
}

pub proof fn lemma_messages_add(a: Seq<(Seq<char>, Span)>, b: Seq<(Seq<char>, Span)>)
    ensures
        messages(a + b) == messages(a) + messages(b),
{
    assert(messages(a + b) =~= messages(a) + messages(b));
}

pub proof fn lemma_views_push(v: Seq<String>, s: String)
    ensures
        views(v.push(s)) == views(v).push(s@),
{
    assert(views(v.push(s)) =~= views(v).push(s@));
}

pub proof fn lemma_last_dot(s: Seq<char>)
    ensures
        last_dot(s) matches Some(d) ==> 0 <= d < s.len() && s[d] == '.',
    decreases s.len(),
{
    if s.len() > 0 && s.last() != '.' {
        lemma_last_dot(s.drop_last());
    }
}

/// `a.b` as a `String`.
fn dotted_string(a: &String, b: &String) -> (r: String)
    ensures
        r@ == dotted(a@, b@),
{
    let mut r = copy_string(a);
    push_char(&mut r, '.');
    r.append(b.as_str());
    r
}

/// `a.lit` as a `String`.
fn dotted_lit(a: &String, b: &str) -> (r: String)
    ensures
        r@ == dotted(a@, b@),
{
    let mut r = copy_string(a);
    push_char(&mut r, '.');
    r.append(b);
    r
}

/// The value of `v[from..]` read as a `usize`, when it parses as one.
pub(crate) fn parse_usize_from(v: &Vec<char>, from: usize) -> (r: Option<usize>)
    requires
        from <= v@.len(),
    ensures
        r is Some <==> parses_as_usize(v@.subrange(from as int, v@.len() as int)),
        r matches Some(n) ==> n == crate::lexer::digits_value(
            unsigned_digits(v@.subrange(from as int, v@.len() as int)),
        ),
{
    let ghost s = v@.subrange(from as int, v@.len() as int);
    let mut i = from;
    if i < v.len() && v[i] == '+' {
        i += 1;
    }
    let ghost d = v@.subrange(i as int, v@.len() as int);
    assert(d =~= unsigned_digits(s));
    if i >= v.len() {
        return None;
    }
    let start = i;
    let mut value: usize = 0;

    while i < v.len()
        invariant
            start <= i <= v@.len(),
            d == v@.subrange(start as int, v@.len() as int),
            d == unsigned_digits(s),
            s == v@.subrange(from as int, v@.len() as int),
            d.len() > 0,
            parses_as_usize(s) == usize_digits_ok(d),
            forall|j: int| start <= j < i ==> crate::lexer::is_digit(#[trigger] v@[j]),
            value == crate::lexer::digits_value(v@.subrange(start as int, i as int)),
        decreases v.len() - i,
    {
        let c = v[i];
        if !('0' <= c && c <= '9') {
            assert(d[i - start] == c);
            assert(!crate::lexer::is_digit(d[i - start]));
            return None;
        }
        let dv = ((c as u32) - ('0' as u32)) as usize;
        assert(v@.subrange(start as int, i + 1).drop_last() =~= v@.subrange(start as int, i as int));
        if value > (usize::MAX - dv) / 10 {
            proof {
                let p = v@.subrange(start as int, i + 1);
                assert(p =~= d.subrange(0, p.len() as int));
                if forall|j: int| 0 <= j < d.len() ==> crate::lexer::is_digit(#[trigger] d[j]) {
                    lemma_digits_value_grows(p, d);
                }
            }
            return None;
        }
        value = value * 10 + dv;
        i += 1;
    }
    assert(v@.subrange(start as int, i as int) =~= d);
    Some(value)
}

/// A prefix of a digit string has no greater value.
proof fn lemma_digits_value_grows(p: Seq<char>, d: Seq<char>)
    requires
        p.len() <= d.len(),
        p == d.subrange(0, p.len() as int),
        forall|j: int| 0 <= j < d.len() ==> crate::lexer::is_digit(#[trigger] d[j]),
    ensures
        crate::lexer::digits_value(p) <= crate::lexer::digits_value(d),
    decreases d.len(),
{
    if p.len() < d.len() {
        assert(d.drop_last().subrange(0, p.len() as int) =~= p);
        lemma_digits_value_grows(p, d.drop_last());
    } else {
        assert(p =~= d);
    }
}


// ---------------------------------------------------------------------------
// The resolver
// ---------------------------------------------------------------------------

/// Walks a program with a stack of scopes and reports every variable that no
/// scope defines. The scopes are kept as one list of names; entering a scope
/// remembers the list's length, and leaving it cuts the list back.
pub struct Resolver {
    names: Vec<String>,
    errors: Vec<CompilerError>,
}

impl Resolver {
    /// The names in scope.
    pub closed spec fn env(&self) -> Seq<Seq<char>> {
        views(self.names@)
    }

    /// Just created: only the builtins are in scope and nothing is reported.
    pub closed spec fn fresh(&self) -> bool {
        self.env() == builtin_names() && self.errors@.len() == 0
    }

    pub fn new() -> (r: Resolver)
        ensures
            r.fresh(),
    {
        let mut names: Vec<String> = Vec::new();
        let mut s = String::new();
        s.append("IO.println");
        names.push(s);
        let mut s = String::new();
        s.append("toString");
        names.push(s);
        let mut s = String::new();
        s.append("()");
        names.push(s);
        let mut s = String::new();
        s.append("List.nil");
        names.push(s);
        let mut s = String::new();
        s.append("List.cons");
        names.push(s);
        let mut s = String::new();
        s.append("Option.none");
        names.push(s);
        let mut s = String::new();
        s.append("Option.some");
        names.push(s);
        let r = Resolver { names, errors: Vec::new() };
        assert(r.env() =~= builtin_names());
        r
    }

    /// Resolves all names of a program: `Ok` when every variable occurrence
    /// is defined, otherwise one `undefined variable` error per occurrence
    /// that is not, in source order.
    pub fn resolve(self, decls: &Vec<Decl>) -> (r: Result<(), Vec<CompilerError>>)
        requires
            self.fresh(),
        ensures
            r is Ok <==> decls_errs(program_env(decls@), decls@).len() == 0,
            r matches Err(es) ==> all_resolve_errors(es@) && reported(es@) == messages(
                decls_errs(program_env(decls@), decls@),
            ),
    {
        let mut this = self;
        let mut top_level: Vec<String> = Vec::new();
        let empty = String::new();
        collect_names(decls, &empty, &mut top_level);
        assert(views(top_level@) == decls_names(decls@, seq![]));
        this.process_opens(decls, &mut top_level);
        let ghost base = this.env();
        let mut i: usize = 0;
        while i < top_level.len()
            invariant
                i <= top_level@.len(),
                this.errors@.len() == 0,
                this.env() == base + views(top_level@).subrange(0, i as int),
            decreases top_level.len() - i,
        {
            let n = copy_string(&top_level[i]);
            proof {
                lemma_views_push(this.names@, n);
            }
            this.names.push(n);
            assert(views(top_level@).subrange(0, i + 1) =~= views(top_level@).subrange(0, i as int).push(top_level@[i as int]@));
            assert(this.env() =~= base + views(top_level@).subrange(0, i + 1));
            i += 1;
        }
        assert(views(top_level@).subrange(0, i as int) =~= views(top_level@));
        assert(this.env() == program_env(decls@));
        let ghost env0 = this.env();
        let mut j: usize = 0;
        while j < decls.len()
            invariant
                j <= decls@.len(),
                this.env() == env0,
                all_resolve_errors(this.errors@),
                reported(this.errors@) == messages(decls_errs(env0, decls@.subrange(0, j as int))),
            decreases decls.len() - j,
        {
            let ghost before = this.errors@;
            this.resolve_decl(&decls[j]);
            proof {
                assert(decls@.subrange(0, j + 1).subrange(0, j as int) =~= decls@.subrange(0, j as int));
                lemma_messages_add(decls_errs(env0, decls@.subrange(0, j as int)), decl_errs(env0, decls@[j as int]));
            }
            j += 1;
        }
        assert(decls@.subrange(0, j as int) =~= decls@);
        if this.errors.len() == 0 {
            assert(reported(this.errors@).len() == 0);
            Ok(())
        } else {
            Err(this.errors)
        }
    }

    /// Adds the aliases that each `open` brings into the top-level scope.
    fn process_opens(&self, decls: &Vec<Decl>, scope: &mut Vec<String>)
        ensures
            views(final(scope)@) == opens_applied(decls@, views(old(scope)@)),
    {
        let mut i: usize = 0;
        while i < decls.len()
            invariant
                i <= decls@.len(),
                views(scope@) == opens_applied(decls@.subrange(0, i as int), views(old(scope)@)),
            decreases decls.len() - i,
        {
            proof {
                assert(decls@.subrange(0, i + 1).drop_last() =~= decls@.subrange(0, i as int));
            }
            match &decls[i] {
                Decl::Open { path } => {
                    let mut prefix_dot = String::new();
                    crate::ast::push_joined(&mut prefix_dot, &path.segments, '.');
                    push_char(&mut prefix_dot, '.');
                    assert(prefix_dot@ =~= crate::ast::join_with(views(path.segments@), '.') + seq!['.']);
                    let mut to_add: Vec<String> = Vec::new();
                    let pfx = chars_of(prefix_dot.as_str());
                    let mut k: usize = 0;
                    while k < scope.len()
                        invariant
                            k <= scope@.len(),
                            pfx@ == prefix_dot@,
                            views(to_add@) == aliases(views(scope@).subrange(0, k as int), pfx@),
                        decreases scope.len() - k,
                    {
                        let ghost prev = views(to_add@);
                        assert(views(scope@).subrange(0, k + 1).drop_last() =~= views(scope@).subrange(0, k as int));
                        let name = chars_of(scope[k].as_str());
                        if let Some(rest) = alias_exec(&name, &pfx) {
                            to_add.push(rest);
                            assert(views(to_add@) =~= prev + alias_of(scope@[k as int]@, pfx@));
                        } else {
                            assert(views(to_add@) =~= prev + alias_of(scope@[k as int]@, pfx@));
                        }
                        k += 1;
                    }
                    assert(views(scope@).subrange(0, k as int) =~= views(scope@));
                    let ghost s0 = views(scope@);
                    let mut m: usize = 0;
                    while m < to_add.len()
                        invariant
                            m <= to_add@.len(),
                            views(scope@) == s0 + views(to_add@).subrange(0, m as int),
                        decreases to_add.len() - m,
                    {
                        let n = copy_string(&to_add[m]);
                        proof {
                            lemma_views_push(scope@, n);
                        }
                        scope.push(n);
                        assert(views(scope@) =~= s0 + views(to_add@).subrange(0, m + 1));
                        m += 1;
                    }
                    assert(views(to_add@).subrange(0, m as int) =~= views(to_add@));
                },
                _ => {},
            }
            i += 1;
        }
        assert(decls@.subrange(0, i as int) =~= decls@);
    }
}

/// The alias of `name` under the namespace prefix `pfx`, if it has one.
fn alias_exec(name: &Vec<char>, pfx: &Vec<char>) -> (r: Option<String>)
    ensures
        alias_of(name@, pfx@).len() == 0 ==> r is None,
        alias_of(name@, pfx@).len() == 1 ==> (r matches Some(s) && s@ == alias_of(name@, pfx@)[0]),
{
    if pfx.len() > name.len() {
        return None;
    }
    let mut i: usize = 0;
    while i < pfx.len()
        invariant
            i <= pfx@.len() <= name@.len(),
            forall|j: int| 0 <= j < i ==> name@[j] == pfx@[j],
        decreases pfx.len() - i,
    {
        if name[i] != pfx[i] {
            assert(name@.subrange(0, pfx@.len() as int)[i as int] != pfx@[i as int]);
            return None;
        }
        i += 1;
    }
    assert(name@.subrange(0, pfx@.len() as int) =~= pfx@);
    let mut rest: Vec<char> = Vec::new();
    let mut k = pfx.len();
    while k < name.len()
        invariant
            pfx@.len() <= k <= name@.len(),
            rest@ == name@.subrange(pfx@.len() as int, k as int),
            !rest@.contains('.'),
        decreases name.len() - k,
    {
        if name[k] == '.' {
            assert(name@.subrange(pfx@.len() as int, name@.len() as int)[k - pfx@.len()] == '.');
            return None;
        }
        rest.push(name[k]);
        assert(rest@ =~= name@.subrange(pfx@.len() as int, k + 1));
        k += 1;
    }
    let s = crate::text::string_from_prefix(&rest, rest.len());
    assert(rest@.take(rest@.len() as int) =~= rest@);
    Some(s)
}

/// Appends the names `decls` introduce at top level under `prefix`.
fn collect_names(decls: &Vec<Decl>, prefix: &String, names: &mut Vec<String>)
    ensures
        views(final(names)@) == views(old(names)@) + decls_names(decls@, prefix@),
    decreases decls,
{
    let mut i: usize = 0;
    while i < decls.len()
        invariant
            i <= decls@.len(),
            views(names@) == views(old(names)@) + decls_names(decls@.subrange(0, i as int), prefix@),
        decreases decls.len() - i,
    {
        proof {
            assert(decls@.subrange(0, i + 1).subrange(0, i as int) =~= decls@.subrange(0, i as int));
            assert(decreases_to!(*decls => decls[i as int]));
        }
        let ghost before = views(names@);
        collect_decl_names(&decls[i], prefix, names);
        assert(views(names@) =~= views(old(names)@) + decls_names(decls@.subrange(0, i + 1), prefix@));
        i += 1;
    }
    assert(decls@.subrange(0, i as int) =~= decls@);
}

/// Appends `prefix.name` when there is a prefix.
fn push_opt_prefixed(names: &mut Vec<String>, prefix: &String, name: &String)
    ensures
        views(final(names)@) == views(old(names)@) + opt_prefixed(prefix@, name@),
{
    if prefix.as_str().unicode_len() > 0 {
        names.push(dotted_string(prefix, name));
        assert(views(names@) =~= views(old(names)@) + opt_prefixed(prefix@, name@));
    } else {
        assert(views(names@) =~= views(old(names)@) + opt_prefixed(prefix@, name@));
    }
}

fn push_name(names: &mut Vec<String>, name: String)
    ensures
        views(final(names)@) == views(old(names)@).push(name@),
{
    names.push(name);
    assert(views(names@) =~= views(old(names)@).push(name@));
}

fn collect_decl_names(d: &Decl, prefix: &String, names: &mut Vec<String>)
    ensures
        views(final(names)@) == views(old(names)@) + decl_names(*d, prefix@),
    decreases d,
{
    let ghost start = views(names@);
    match d {
        Decl::FunDef { name, .. } | Decl::FunDefMatch { name, .. } => {
            push_name(names, copy_string(name));
            push_opt_prefixed(names, prefix, name);
            assert(views(names@) =~= start + decl_names(*d, prefix@));
        },
        Decl::InductiveDef { name, constructors } => {
            push_name(names, copy_string(name));
            push_opt_prefixed(names, prefix, name);
            let ghost mid = views(names@);
            let mut i: usize = 0;
            while i < constructors.len()
                invariant
                    i <= constructors@.len(),
                    views(names@) == mid + ctor_names(constructors@.subrange(0, i as int), name@, prefix@),
                decreases constructors.len() - i,
            {
                let c = &constructors[i];
                let ghost b = views(names@);
                assert(constructors@.subrange(0, i + 1).drop_last() =~= constructors@.subrange(0, i as int));
                push_name(names, copy_string(&c.name));
                let q = dotted_string(name, &c.name);
                push_name(names, q);
                let q2 = dotted_string(name, &c.name);
                push_opt_prefixed(names, prefix, &q2);
                assert(views(names@) =~= mid + ctor_names(constructors@.subrange(0, i + 1), name@, prefix@));
                i += 1;
            }
            assert(constructors@.subrange(0, i as int) =~= constructors@);
            assert(views(names@) =~= start + decl_names(*d, prefix@));
        },
        Decl::StructDef { name, fields } => {
            push_name(names, copy_string(name));
            push_opt_prefixed(names, prefix, name);
            push_name(names, dotted_lit(name, "mk"));
            let mk = dotted_lit(name, "mk");
            push_opt_prefixed(names, prefix, &mk);
            let ghost mid = views(names@);
            let mut i: usize = 0;
            while i < fields.len()
                invariant
                    i <= fields@.len(),
                    views(names@) == mid + field_names(fields@.subrange(0, i as int), name@, prefix@),
                decreases fields.len() - i,
            {
                assert(fields@.subrange(0, i + 1).drop_last() =~= fields@.subrange(0, i as int));
                let q = dotted_string(name, &fields[i].0);
                push_name(names, q);
                let q2 = dotted_string(name, &fields[i].0);
                push_opt_prefixed(names, prefix, &q2);
                assert(views(names@) =~= mid + field_names(fields@.subrange(0, i + 1), name@, prefix@));
                i += 1;
            }
            assert(fields@.subrange(0, i as int) =~= fields@);
            assert(views(names@) =~= start + decl_names(*d, prefix@));
        },
        Decl::Namespace { name, decls: inner } => {
            push_name(names, copy_string(name));
            push_opt_prefixed(names, prefix, name);
            assert(decreases_to!(*d => (*d)->Namespace_decls));
            collect_names(inner, name, names);
            if prefix.as_str().unicode_len() > 0 {
                let new_prefix = dotted_string(prefix, name);
                collect_names(inner, &new_prefix, names);
            }
            assert(views(names@) =~= start + decl_names(*d, prefix@));
        },
        _ => {
            assert(views(names@) =~= start + decl_names(*d, prefix@));
        },
    }
}


/// The position of the last `.` in `v`.
pub(crate) fn find_last_dot(v: &Vec<char>) -> (r: Option<usize>)
    ensures
        match last_dot(v@) {
            Some(d) => r == Some(d as usize),
            None => r is None,
        },
{
    let mut i = v.len();
    assert(v@.take(i as int) =~= v@);
    while i > 0
        invariant
            i <= v@.len(),
            last_dot(v@) == last_dot(v@.take(i as int)),
        decreases i,
    {
        assert(v@.take(i as int).last() == v@[i - 1]);
        if v[i - 1] == '.' {
            return Some(i - 1);
        }
        assert(v@.take(i as int).drop_last() =~= v@.take(i - 1));
        i -= 1;
    }
    None
}

impl Resolver {
    /// The state after resolving something whose unresolved occurrences are
    /// `list`: the scope is as before, and one report per occurrence was added.
    pub closed spec fn reports_after(&self, old: &Resolver, list: Seq<(Seq<char>, Span)>) -> bool {
        &&& self.names@ == old.names@
        &&& all_resolve_errors(self.errors@)
        &&& reported(self.errors@) == reported(old.errors@) + messages(list)
    }

    proof fn lemma_reports_chain(
        a: &Resolver,
        b: &Resolver,
        c: &Resolver,
        x: Seq<(Seq<char>, Span)>,
        y: Seq<(Seq<char>, Span)>,
    )
        requires
            b.reports_after(a, x),
            c.reports_after(b, y),
        ensures
            c.reports_after(a, x + y),
    {
        lemma_messages_add(x, y);
        assert(reported(a.errors@) + messages(x) + messages(y) =~= reported(a.errors@) + messages(x + y));
    }

    proof fn lemma_reports_none(a: &Resolver)
        requires
            all_resolve_errors(a.errors@),
        ensures
            a.reports_after(a, seq![]),
    {
        assert(messages(seq![]) =~= Seq::<(Seq<char>, Span)>::empty());
        assert(reported(a.errors@) + messages(seq![]) =~= reported(a.errors@));
    }

    fn is_defined(&self, name: &String) -> (r: bool)
        ensures
            r == self.env().contains(name@),
    {
        let mut i: usize = 0;
        while i < self.names.len()
            invariant
                i <= self.names@.len(),
                forall|j: int| 0 <= j < i ==> self.names@[j]@ != name@,
            decreases self.names.len() - i,
        {
            if self.names[i] == *name {
                assert(self.env()[i as int] == name@);
                return true;
            }
            i += 1;
        }
        assert forall|j: int| 0 <= j < self.env().len() implies self.env()[j] != name@ by {
            assert(self.env()[j] == self.names@[j]@);
        }
        false
    }

    fn is_tuple_access(&self, name: &String) -> (r: bool)
        ensures
            r == is_tuple_access(self.env(), name@),
    {
        let chars = chars_of(name.as_str());
        proof {
            lemma_last_dot(chars@);
        }
        match find_last_dot(&chars) {
            Some(d) => {
                let total = chars.len();
                assert(d < total);
                if parse_usize_from(&chars, d + 1).is_none() {
                    return false;
                }
                let base = crate::text::string_from_prefix(&chars, d);
                assert(base@ =~= name@.subrange(0, d as int));
                self.is_defined(&base)
            },
            None => false,
        }
    }

    fn define(&mut self, name: String)
        ensures
            final(self).names@ == old(self).names@.push(name),
            final(self).env() == old(self).env().push(name@),
            final(self).names@.subrange(0, old(self).names@.len() as int) == old(self).names@,
            final(self).names@.len() >= old(self).names@.len(),
            final(self).errors@ == old(self).errors@,
    {
        let ghost n = name;
        self.names.push(name);
        proof {
            lemma_views_push(old(self).names@, n);
            assert(self.names@.subrange(0, old(self).names@.len() as int) =~= old(self).names@);
        }
    }

    /// Brings the variables of a pattern into scope.
    fn define_pattern_vars(&mut self, pattern: &Pattern)
        ensures
            final(self).env() == old(self).env() + pattern_vars(*pattern),
            final(self).names@.subrange(0, old(self).names@.len() as int) == old(self).names@,
            final(self).names@.len() >= old(self).names@.len(),
            final(self).errors@ == old(self).errors@,
        decreases pattern,
    {
        match pattern {
            Pattern::Var(name) => {
                self.define(copy_string(name));
                assert(self.env() =~= old(self).env() + pattern_vars(*pattern));
            },
            Pattern::Successor(name, _) => {
                self.define(copy_string(name));
                assert(self.env() =~= old(self).env() + pattern_vars(*pattern));
            },
            Pattern::Constructor(_, args) => {
                assert(decreases_to!(*pattern => (*pattern)->Constructor_1));
                self.define_pattern_list(args);
            },
            Pattern::Tuple(args) => {
                assert(decreases_to!(*pattern => (*pattern)->Tuple_0));
                self.define_pattern_list(args);
            },
            _ => {
                assert(self.env() =~= old(self).env() + pattern_vars(*pattern));
            },
        }
    }

    fn define_pattern_list(&mut self, args: &Vec<Pattern>)
        ensures
            final(self).env() == old(self).env() + patterns_vars(args@),
            final(self).names@.subrange(0, old(self).names@.len() as int) == old(self).names@,
            final(self).names@.len() >= old(self).names@.len(),
            final(self).errors@ == old(self).errors@,
        decreases args,
    {
        let mut i: usize = 0;
        while i < args.len()
            invariant
                i <= args@.len(),
                self.env() == old(self).env() + patterns_vars(args@.subrange(0, i as int)),
                self.names@.len() >= old(self).names@.len(),
                self.names@.subrange(0, old(self).names@.len() as int) == old(self).names@,
                self.errors@ == old(self).errors@,
            decreases args.len() - i,
        {
            proof {
                assert(args@.subrange(0, i + 1).subrange(0, i as int) =~= args@.subrange(0, i as int));
                assert(decreases_to!(*args => args[i as int]));
            }
            let ghost n0 = self.names@;
            self.define_pattern_vars(&args[i]);
            assert(self.env() =~= old(self).env() + patterns_vars(args@.subrange(0, i + 1)));
            assert(self.names@.subrange(0, old(self).names@.len() as int) =~= old(self).names@) by {
                assert(n0.subrange(0, old(self).names@.len() as int) == old(self).names@);
            }
            i += 1;
        }
        assert(args@.subrange(0, i as int) =~= args@);
    }

    /// Leaves the scopes entered since the list had `mark` names.
    fn pop_to(&mut self, mark: usize)
        requires
            mark <= old(self).names@.len(),
        ensures
            final(self).names@ == old(self).names@.subrange(0, mark as int),
            final(self).errors@ == old(self).errors@,
    {
        self.names.truncate(mark);
    }

    fn report_undefined(&mut self, name: &String, span: Span)
        requires
            all_resolve_errors(old(self).errors@),
        ensures
            final(self).reports_after(old(self), seq![(name@, span)]),
    {
        let mut msg = String::new();
        msg.append("undefined variable `");
        msg.append(name.as_str());
        msg.append("`");
        self.errors.push(CompilerError::ResolveError { msg, span });
        assert(reported(self.errors@) =~= reported(old(self).errors@) + messages(seq![(name@, span)]));
    }

    fn resolve_expr(&mut self, expr: &Expr)
        requires
            all_resolve_errors(old(self).errors@),
        ensures
            final(self).reports_after(old(self), expr_errs(old(self).env(), *expr)),
        decreases expr,
    {
        let ghost env0 = self.env();
        proof {
            Self::lemma_reports_none(self);
        }
        match expr {
            Expr::Var(name, span) => {
                if !self.is_defined(name) && !self.is_tuple_access(name) {
                    self.report_undefined(name, *span);
                }
            },
            Expr::BinOp { lhs, rhs, .. } | Expr::FunApp { func: lhs, arg: rhs } => {
                let ghost s0 = *self;
                self.resolve_expr(lhs);
                let ghost s1 = *self;
                self.resolve_expr(rhs);
                proof {
                    Self::lemma_reports_chain(&s0, &s1, self, expr_errs(env0, **lhs), expr_errs(env0, **rhs));
                }
            },
            Expr::UnaryOp { operand, .. } => {
                self.resolve_expr(operand);
            },
            Expr::Paren(operand) => {
                self.resolve_expr(operand);
            },
            Expr::If { cond, then_branch, else_branch } => {
                let ghost s0 = *self;
                self.resolve_expr(cond);
                let ghost s1 = *self;
                self.resolve_expr(then_branch);
                let ghost s2 = *self;
                self.resolve_expr(else_branch);
                proof {
                    Self::lemma_reports_chain(&s0, &s1, &s2, expr_errs(env0, **cond), expr_errs(env0, **then_branch));
                    Self::lemma_reports_chain(&s0, &s2, self, expr_errs(env0, **cond) + expr_errs(env0, **then_branch), expr_errs(env0, **else_branch));
                }
            },
            Expr::Let { name, value, body, .. } => {
                let ghost s0 = *self;
                self.resolve_expr(value);
                let ghost s1 = *self;
                let mark = self.names.len();
                self.define(copy_string(name));
                assert(self.env() =~= env0.push(name@));
                self.resolve_expr(body);
                self.pop_to(mark);
                assert(self.names@ =~= s1.names@);
                proof {
                    Self::lemma_reports_chain(&s0, &s1, self, expr_errs(env0, **value), expr_errs(env0.push(name@), **body));
                }
            },
            Expr::Lambda { params, body } => {
                let ghost s0 = *self;
                let mark = self.names.len();
                let mut i: usize = 0;
                while i < params.len()
                    invariant
                        i <= params@.len(),
                        mark == s0.names@.len(),
                        self.env() == env0 + lambda_names(params@.subrange(0, i as int)),
                        self.names@.len() >= mark,
                        self.names@.subrange(0, mark as int) == s0.names@,
                        self.errors@ == s0.errors@,
                        env0 == s0.env(),
                    decreases params.len() - i,
                {
                    let ghost n0 = self.names@;
                    self.define(copy_string(&params[i].0));
                    assert(lambda_names(params@.subrange(0, i + 1)) =~= lambda_names(params@.subrange(0, i as int)).push(params@[i as int].0@));
                    assert(self.env() =~= env0 + lambda_names(params@.subrange(0, i + 1)));
                    assert(self.names@.subrange(0, mark as int) =~= s0.names@) by {
                        assert(n0.subrange(0, mark as int) == s0.names@);
                    }
                    i += 1;
                }
                assert(params@.subrange(0, i as int) =~= params@);
                let ghost s1 = *self;
                self.resolve_expr(body);
                self.pop_to(mark);
                assert(self.names@ =~= s0.names@);
            },
            Expr::Tuple(elems) => {
                let ghost s0 = *self;
                let mut i: usize = 0;
                while i < elems.len()
                    invariant
                        i <= elems@.len(),
                        *expr == Expr::Tuple(*elems),
                        env0 == s0.env(),
                        self.reports_after(&s0, exprs_errs(env0, elems@.subrange(0, i as int))),
                    decreases elems.len() - i,
                {
                    proof {
                        assert(elems@.subrange(0, i + 1).subrange(0, i as int) =~= elems@.subrange(0, i as int));
                        assert(decreases_to!(*expr => (*expr)->Tuple_0));
                        assert(decreases_to!(*elems => elems[i as int]));
                    }
                    let ghost s1 = *self;
                    self.resolve_expr(&elems[i]);
                    proof {
                        Self::lemma_reports_chain(&s0, &s1, self, exprs_errs(env0, elems@.subrange(0, i as int)), expr_errs(env0, elems@[i as int]));
                    }
                    i += 1;
                }
                assert(elems@.subrange(0, i as int) =~= elems@);
            },
            Expr::StringInterpolation(parts) => {
                let ghost s0 = *self;
                let mut i: usize = 0;
                while i < parts.len()
                    invariant
                        i <= parts@.len(),
                        *expr == Expr::StringInterpolation(*parts),
                        env0 == s0.env(),
                        self.reports_after(&s0, parts_errs(env0, parts@.subrange(0, i as int))),
                    decreases parts.len() - i,
                {
                    proof {
                        assert(parts@.subrange(0, i + 1).subrange(0, i as int) =~= parts@.subrange(0, i as int));
                        assert(decreases_to!(*expr => (*expr)->StringInterpolation_0));
                        assert(decreases_to!(*parts => parts[i as int]));
                    }
                    let ghost s1 = *self;
                    match &parts[i] {
                        StringInterpPart::Expr(e) => {
                            assert(decreases_to!(parts[i as int] => parts[i as int]->Expr_0));
                            self.resolve_expr(e);
                            proof {
                                Self::lemma_reports_chain(&s0, &s1, self, parts_errs(env0, parts@.subrange(0, i as int)), expr_errs(env0, *e));
                            }
                        },
                        StringInterpPart::Literal(_) => {
                            proof {
                                Self::lemma_reports_none(self);
                                Self::lemma_reports_chain(&s0, &s1, self, parts_errs(env0, parts@.subrange(0, i as int)), seq![]);
                            }
                        },
                    }
                    assert(parts_errs(env0, parts@.subrange(0, i + 1)) =~= parts_errs(env0, parts@.subrange(0, i as int)) + match parts@[i as int] {
                        StringInterpPart::Expr(e) => expr_errs(env0, e),
                        StringInterpPart::Literal(_) => seq![],
                    });
                    i += 1;
                }
                assert(parts@.subrange(0, i as int) =~= parts@);
            },
            Expr::Match { scrutinee, arms } => {
                let ghost s0 = *self;
                self.resolve_expr(scrutinee);
                let ghost s1 = *self;
                let mut i: usize = 0;
                while i < arms.len()
                    invariant
                        i <= arms@.len(),
                        *expr == (Expr::Match { scrutinee: *scrutinee, arms: *arms }),
                        env0 == s0.env(),
                        s1.names@ == s0.names@,
                        self.reports_after(&s1, arms_errs(env0, arms@.subrange(0, i as int))),
                    decreases arms.len() - i,
                {
                    proof {
                        assert(arms@.subrange(0, i + 1).subrange(0, i as int) =~= arms@.subrange(0, i as int));
                        assert(decreases_to!(*expr => (*expr)->arms));
                        assert(decreases_to!(*arms => arms[i as int]));
                        assert(decreases_to!(arms[i as int] => arms[i as int].body));
                    }
                    let ghost s2 = *self;
                    let mark = self.names.len();
                    self.define_pattern_vars(&arms[i].pattern);
                    self.resolve_expr(&arms[i].body);
                    self.pop_to(mark);
                    assert(self.names@ =~= s2.names@);
                    proof {
                        Self::lemma_reports_chain(&s1, &s2, self, arms_errs(env0, arms@.subrange(0, i as int)), expr_errs(env0 + pattern_vars(arms@[i as int].pattern), arms@[i as int].body));
                    }
                    i += 1;
                }
                assert(arms@.subrange(0, i as int) =~= arms@);
                proof {
                    Self::lemma_reports_chain(&s0, &s1, self, expr_errs(env0, **scrutinee), arms_errs(env0, arms@));
                }
            },
            Expr::Do(stmts) => {
                let ghost s0 = *self;
                let mark = self.names.len();
                let mut i: usize = 0;
                while i < stmts.len()
                    invariant
                        i <= stmts@.len(),
                        *expr == Expr::Do(*stmts),
                        mark == s0.names@.len(),
                        self.names@.len() >= mark,
                        env0 == s0.env(),
                        self.env() == env0 + do_defs(stmts@.subrange(0, i as int)),
                        self.names@.subrange(0, mark as int) == s0.names@,
                        all_resolve_errors(self.errors@),
                        reported(self.errors@) == reported(s0.errors@) + messages(do_errs(env0, stmts@.subrange(0, i as int))),
                    decreases stmts.len() - i,
                {
                    proof {
                        assert(stmts@.subrange(0, i + 1).subrange(0, i as int) =~= stmts@.subrange(0, i as int));
                        assert(stmts@.subrange(0, i + 1).drop_last() =~= stmts@.subrange(0, i as int));
                        assert(decreases_to!(*expr => (*expr)->Do_0));
                        assert(decreases_to!(*stmts => stmts[i as int]));
                        lemma_messages_add(do_errs(env0, stmts@.subrange(0, i as int)), match stmts@[i as int] {
                            DoStatement::Expr(e) => expr_errs(env0 + do_defs(stmts@.subrange(0, i as int)), e),
                            DoStatement::Let(_, v) => expr_errs(env0 + do_defs(stmts@.subrange(0, i as int)), v),
                        });
                    }
                    let ghost n1 = self.names@;
                    match &stmts[i] {
                        DoStatement::Expr(e) => {
                            assert(decreases_to!(stmts[i as int] => stmts[i as int]->Expr_0));
                            self.resolve_expr(e);
                            assert(do_defs(stmts@.subrange(0, i + 1)) =~= do_defs(stmts@.subrange(0, i as int)));
                            assert(self.env() =~= env0 + do_defs(stmts@.subrange(0, i + 1)));
                        },
                        DoStatement::Let(name, value) => {
                            assert(decreases_to!(stmts[i as int] => stmts[i as int]->Let_1));
                            self.resolve_expr(value);
                            self.define(copy_string(name));
                            assert(do_defs(stmts@.subrange(0, i + 1)) =~= do_defs(stmts@.subrange(0, i as int)) + seq![name@]);
                            assert(self.env() =~= env0 + do_defs(stmts@.subrange(0, i + 1)));
                        },
                    }
                    assert(self.names@.subrange(0, mark as int) =~= s0.names@) by {
                        assert(n1.subrange(0, mark as int) == s0.names@);
                    }
                    i += 1;
                }
                assert(stmts@.subrange(0, i as int) =~= stmts@);
                self.pop_to(mark);
                assert(self.names@ =~= s0.names@);
            },
            _ => {},
        }
    }

    fn resolve_decl(&mut self, decl: &Decl)
        requires
            all_resolve_errors(old(self).errors@),
        ensures
            final(self).reports_after(old(self), decl_errs(old(self).env(), *decl)),
        decreases decl,
    {
        let ghost env0 = self.env();
        let ghost s0 = *self;
        proof {
            Self::lemma_reports_none(self);
        }
        match decl {
            Decl::FunDef { params, body, .. } => {
                let mark = self.names.len();
                self.define_params(params);
                self.resolve_expr(body);
                self.pop_to(mark);
                assert(self.names@ =~= s0.names@);
            },
            Decl::FunDefMatch { params, cases, .. } => {
                let mark = self.names.len();
                self.define_params(params);
                let ghost s1 = *self;
                let ghost env1 = self.env();
                let mut i: usize = 0;
                while i < cases.len()
                    invariant
                        i <= cases@.len(),
                        env1 == s1.env(),
                        mark == s0.names@.len(),
                        s1.names@.len() >= mark,
                        self.names@ == s1.names@,
                        s1.names@.subrange(0, mark as int) == s0.names@,
                        self.reports_after(&s1, cases_errs(env1, cases@.subrange(0, i as int))),
                    decreases cases.len() - i,
                {
                    proof {
                        assert(cases@.subrange(0, i + 1).subrange(0, i as int) =~= cases@.subrange(0, i as int));
                        assert(decreases_to!(*cases => cases[i as int]));
                    }
                    let ghost s2 = *self;
                    let mark2 = self.names.len();
                    let pats = &cases[i].0;
                    let mut k: usize = 0;
                    while k < pats.len()
                        invariant
                            k <= pats@.len(),
                            mark2 == s2.names@.len(),
                            self.names@.len() >= mark2,
                            self.env() == env1 + patterns_vars(pats@.subrange(0, k as int)),
                            self.names@.subrange(0, mark2 as int) == s2.names@,
                            self.errors@ == s2.errors@,
                            env1 == s2.env(),
                        decreases pats.len() - k,
                    {
                        let ghost n1 = self.names@;
                        self.define_pattern_vars(&pats[k]);
                        assert(pats@.subrange(0, k + 1).subrange(0, k as int) =~= pats@.subrange(0, k as int));
                        assert(self.env() =~= env1 + patterns_vars(pats@.subrange(0, k + 1)));
                        assert(self.names@.subrange(0, mark2 as int) =~= s2.names@) by {
                            assert(n1.subrange(0, mark2 as int) == s2.names@);
                        }
                        k += 1;
                    }
                    assert(pats@.subrange(0, k as int) =~= pats@);
                    assert(decreases_to!(cases[i as int] => cases[i as int].1));
                    self.resolve_expr(&cases[i].1);
                    self.pop_to(mark2);
                    assert(self.names@ =~= s2.names@);
                    proof {
                        Self::lemma_reports_chain(&s1, &s2, self, cases_errs(env1, cases@.subrange(0, i as int)), expr_errs(env1 + patterns_vars(cases@[i as int].0@), cases@[i as int].1));
                    }
                    i += 1;
                }
                assert(cases@.subrange(0, i as int) =~= cases@);
                self.pop_to(mark);
                assert(self.names@ =~= s0.names@);
            },
            Decl::Eval(expr) => {
                self.resolve_expr(expr);
            },
            Decl::Namespace { decls, .. } => {
                assert(decreases_to!(*decl => (*decl)->Namespace_decls));
                let mut i: usize = 0;
                while i < decls.len()
                    invariant
                        i <= decls@.len(),
                        *decl == (Decl::Namespace { name: decl->Namespace_name, decls: *decls }),
                        env0 == s0.env(),
                        self.reports_after(&s0, decls_errs(env0, decls@.subrange(0, i as int))),
                    decreases decls.len() - i,
                {
                    proof {
                        assert(decls@.subrange(0, i + 1).subrange(0, i as int) =~= decls@.subrange(0, i as int));
                        assert(decreases_to!(*decl => (*decl)->Namespace_decls));
                        assert(decreases_to!(*decls => decls[i as int]));
                    }
                    let ghost s1 = *self;
                    self.resolve_decl(&decls[i]);
                    proof {
                        Self::lemma_reports_chain(&s0, &s1, self, decls_errs(env0, decls@.subrange(0, i as int)), decl_errs(env0, decls@[i as int]));
                    }
                    i += 1;
                }
                assert(decls@.subrange(0, i as int) =~= decls@);
            },
            _ => {},
        }
    }

    /// Brings parameters into scope.
    fn define_params(&mut self, params: &Vec<(String, Type)>)
        ensures
            final(self).env() == old(self).env() + param_names(params@),
            final(self).names@.subrange(0, old(self).names@.len() as int) == old(self).names@,
            final(self).names@.len() >= old(self).names@.len(),
            final(self).errors@ == old(self).errors@,
    {
        let mut i: usize = 0;
        while i < params.len()
            invariant
                i <= params@.len(),
                self.env() == old(self).env() + param_names(params@.subrange(0, i as int)),
                self.names@.len() >= old(self).names@.len(),
                self.names@.subrange(0, old(self).names@.len() as int) == old(self).names@,
                self.errors@ == old(self).errors@,
            decreases params.len() - i,
        {
            let ghost n0 = self.names@;
            self.define(copy_string(&params[i].0));
            assert(param_names(params@.subrange(0, i + 1)) =~= param_names(params@.subrange(0, i as int)).push(params@[i as int].0@));
            assert(self.env() =~= old(self).env() + param_names(params@.subrange(0, i + 1)));
            assert(self.names@.subrange(0, old(self).names@.len() as int) =~= old(self).names@) by {
                assert(n0.subrange(0, old(self).names@.len() as int) == old(self).names@);
            }
            i += 1;
        }
        assert(params@.subrange(0, i as int) =~= params@);
    }
}

// ---------------------------------------------------------------------------
// Pattern scope
// ---------------------------------------------------------------------------

/// Whether `x` is bound somewhere inside `p`: `p` is the variable `x` or
/// `x + n`, or one of its sub-patterns (a constructor's arguments, a tuple's
/// elements) binds `x`.
pub open spec fn binds(p: Pattern, x: Seq<char>) -> bool
    decreases p,
{
    match p {
        Pattern::Var(n) => n@ == x,
        Pattern::Successor(n, _) => n@ == x,
        Pattern::Constructor(_, args) => any_binds(args@, x),
        Pattern::Tuple(ps) => any_binds(ps@, x),
        _ => false,
    }
}

/// Whether one of the patterns `ps` binds `x`.
pub open spec fn any_binds(ps: Seq<Pattern>, x: Seq<char>) -> bool
    decreases ps,
{
    ps.len() > 0 && (binds(ps[ps.len() - 1], x) || any_binds(ps.subrange(0, ps.len() - 1), x))
}

/// Every name that `small` contains, `big` contains too.
pub open spec fn scope_within(small: Seq<Seq<char>>, big: Seq<Seq<char>>) -> bool {
    forall|n: Seq<char>| small.contains(n) ==> #[trigger] big.contains(n)
}

/// Each report of `fewer` is one of `more`, for a name that `env` leaves
/// unresolved.
pub open spec fn reports_within(
    env: Seq<Seq<char>>,
    fewer: Seq<(Seq<char>, Span)>,
    more: Seq<(Seq<char>, Span)>,
) -> bool {
    forall|k: int|
        0 <= k < fewer.len() ==> more.contains(#[trigger] fewer[k]) && !resolves(env, fewer[k].0)
}

proof fn lemma_scope_extend(small: Seq<Seq<char>>, big: Seq<Seq<char>>, more: Seq<Seq<char>>)
    requires
        scope_within(small, big),
    ensures
        scope_within(small + more, big + more),
        scope_within(big, big + more),
{
    assert forall|n: Seq<char>| (small + more).contains(n) implies #[trigger] (big + more).contains(n) by {
        let i = choose|i: int| 0 <= i < (small + more).len() && (small + more)[i] == n;
        if i < small.len() {
            assert(small[i] == n);
            assert(small.contains(n));
            assert(big.contains(n));
            let j = choose|j: int| 0 <= j < big.len() && big[j] == n;
            assert((big + more)[j] == n);
        } else {
            assert(more[i - small.len()] == n);
            assert((big + more)[big.len() + (i - small.len())] == n);
        }
    }
    assert forall|n: Seq<char>| big.contains(n) implies #[trigger] (big + more).contains(n) by {
        let j = choose|j: int| 0 <= j < big.len() && big[j] == n;
        assert((big + more)[j] == n);
    }
}

proof fn lemma_resolves_grows(small: Seq<Seq<char>>, big: Seq<Seq<char>>, name: Seq<char>)
    requires
        scope_within(small, big),
        resolves(small, name),
    ensures
        resolves(big, name),
{
    if !small.contains(name) {
        let d = last_dot(name)->Some_0;
        assert(big.contains(name.subrange(0, d)));
    }
}

proof fn lemma_reports_concat(
    env: Seq<Seq<char>>,
    f1: Seq<(Seq<char>, Span)>,
    m1: Seq<(Seq<char>, Span)>,
    f2: Seq<(Seq<char>, Span)>,
    m2: Seq<(Seq<char>, Span)>,
)
    requires
        reports_within(env, f1, m1),
        reports_within(env, f2, m2),
    ensures
        reports_within(env, f1 + f2, m1 + m2),
{
    assert forall|k: int| 0 <= k < (f1 + f2).len() implies (m1 + m2).contains(#[trigger] (f1 + f2)[k])
        && !resolves(env, (f1 + f2)[k].0) by {
        if k < f1.len() {
            let j = choose|j: int| 0 <= j < m1.len() && m1[j] == f1[k];
            assert((m1 + m2)[j] == (f1 + f2)[k]);
        } else {
            let k2 = k - f1.len();
            assert((f1 + f2)[k] == f2[k2]);
            let j = choose|j: int| 0 <= j < m2.len() && m2[j] == f2[k2];
            assert((m1 + m2)[m1.len() + j] == (f1 + f2)[k]);
        }
    }
}

/// Reports made in a scope `inner` that holds `env` leave `env`'s names
/// unresolved too.
proof fn lemma_reports_narrow(
    env: Seq<Seq<char>>,
    inner: Seq<Seq<char>>,
    fewer: Seq<(Seq<char>, Span)>,
    more: Seq<(Seq<char>, Span)>,
)
    requires
        scope_within(env, inner),
        reports_within(inner, fewer, more),
    ensures
        reports_within(env, fewer, more),
{
    assert forall|k: int| 0 <= k < fewer.len() implies more.contains(#[trigger] fewer[k]) && !resolves(
        env,
        fewer[k].0,
    ) by {
        if resolves(env, fewer[k].0) {
            lemma_resolves_grows(env, inner, fewer[k].0);
        }
    }
}

/// Resolving in a wider scope reports a part of what the narrower one
/// reports, each for a name that the wider scope leaves unresolved.
proof fn lemma_expr_errs_wider(narrow: Seq<Seq<char>>, wide: Seq<Seq<char>>, e: Expr)
    requires
        scope_within(narrow, wide),
    ensures
        reports_within(wide, expr_errs(wide, e), expr_errs(narrow, e)),
    decreases e,
{
    match e {
        Expr::Var(name, span) => {
            if !resolves(wide, name@) {
                if resolves(narrow, name@) {
                    lemma_resolves_grows(narrow, wide, name@);
                }
                assert(expr_errs(narrow, e)[0] == (name@, span));
            }
        },
        Expr::BinOp { lhs, rhs, .. } => {
            lemma_expr_errs_wider(narrow, wide, *lhs);
            lemma_expr_errs_wider(narrow, wide, *rhs);
            lemma_reports_concat(wide, expr_errs(wide, *lhs), expr_errs(narrow, *lhs), expr_errs(wide, *rhs), expr_errs(narrow, *rhs));
        },
        Expr::UnaryOp { operand, .. } => {
            lemma_expr_errs_wider(narrow, wide, *operand);
        },
        Expr::FunApp { func, arg } => {
            lemma_expr_errs_wider(narrow, wide, *func);
            lemma_expr_errs_wider(narrow, wide, *arg);
            lemma_reports_concat(wide, expr_errs(wide, *func), expr_errs(narrow, *func), expr_errs(wide, *arg), expr_errs(narrow, *arg));
        },
        Expr::If { cond, then_branch, else_branch } => {
            lemma_expr_errs_wider(narrow, wide, *cond);
            lemma_expr_errs_wider(narrow, wide, *then_branch);
            lemma_expr_errs_wider(narrow, wide, *else_branch);
            lemma_reports_concat(wide, expr_errs(wide, *cond), expr_errs(narrow, *cond), expr_errs(wide, *then_branch), expr_errs(narrow, *then_branch));
            lemma_reports_concat(
                wide,
                expr_errs(wide, *cond) + expr_errs(wide, *then_branch),
                expr_errs(narrow, *cond) + expr_errs(narrow, *then_branch),
                expr_errs(wide, *else_branch),
                expr_errs(narrow, *else_branch),
            );
        },
        Expr::Let { name, value, body, .. } => {
            lemma_expr_errs_wider(narrow, wide, *value);
            lemma_scope_extend(narrow, wide, seq![name@]);
            assert(narrow.push(name@) =~= narrow + seq![name@]);
            assert(wide.push(name@) =~= wide + seq![name@]);
            lemma_expr_errs_wider(narrow.push(name@), wide.push(name@), *body);
            lemma_reports_narrow(wide, wide.push(name@), expr_errs(wide.push(name@), *body), expr_errs(narrow.push(name@), *body));
            lemma_reports_concat(wide, expr_errs(wide, *value), expr_errs(narrow, *value), expr_errs(wide.push(name@), *body), expr_errs(narrow.push(name@), *body));
        },
        Expr::Match { scrutinee, arms } => {
            lemma_expr_errs_wider(narrow, wide, *scrutinee);
            lemma_arms_errs_wider(narrow, wide, arms@);
            lemma_reports_concat(wide, expr_errs(wide, *scrutinee), expr_errs(narrow, *scrutinee), arms_errs(wide, arms@), arms_errs(narrow, arms@));
        },
        Expr::Do(stmts) => {
            lemma_do_errs_wider(narrow, wide, stmts@);
        },
        Expr::Lambda { params, body } => {
            let names = lambda_names(params@);
            lemma_scope_extend(narrow, wide, names);
            lemma_expr_errs_wider(narrow + names, wide + names, *body);
            lemma_reports_narrow(wide, wide + names, expr_errs(wide + names, *body), expr_errs(narrow + names, *body));
        },
        Expr::Paren(inner) => {
            lemma_expr_errs_wider(narrow, wide, *inner);
        },
        Expr::Tuple(elems) => {
            lemma_exprs_errs_wider(narrow, wide, elems@);
        },
        Expr::StringInterpolation(parts) => {
            lemma_parts_errs_wider(narrow, wide, parts@);
        },
        _ => {},
    }
}

proof fn lemma_arms_errs_wider(narrow: Seq<Seq<char>>, wide: Seq<Seq<char>>, arms: Seq<MatchArm>)
    requires
        scope_within(narrow, wide),
    ensures
        reports_within(wide, arms_errs(wide, arms), arms_errs(narrow, arms)),
    decreases arms,
{
    if arms.len() > 0 {
        let prefix = arms.subrange(0, arms.len() - 1);
        let arm = arms[arms.len() - 1];
        let vars = pattern_vars(arm.pattern);
        lemma_arms_errs_wider(narrow, wide, prefix);
        lemma_scope_extend(narrow, wide, vars);
        lemma_expr_errs_wider(narrow + vars, wide + vars, arm.body);
        lemma_reports_narrow(wide, wide + vars, expr_errs(wide + vars, arm.body), expr_errs(narrow + vars, arm.body));
        lemma_reports_concat(wide, arms_errs(wide, prefix), arms_errs(narrow, prefix), expr_errs(wide + vars, arm.body), expr_errs(narrow + vars, arm.body));
    }
}

proof fn lemma_do_errs_wider(narrow: Seq<Seq<char>>, wide: Seq<Seq<char>>, stmts: Seq<DoStatement>)
    requires
        scope_within(narrow, wide),
    ensures
        reports_within(wide, do_errs(wide, stmts), do_errs(narrow, stmts)),
    decreases stmts,
{
    if stmts.len() > 0 {
        let prefix = stmts.subrange(0, stmts.len() - 1);
        let defs = do_defs(prefix);
        lemma_do_errs_wider(narrow, wide, prefix);
        lemma_scope_extend(narrow, wide, defs);
        let e = match stmts[stmts.len() - 1] {
            DoStatement::Expr(e) => e,
            DoStatement::Let(_, v) => v,
        };
        assert(decreases_to!(stmts => stmts[stmts.len() - 1]));
        lemma_expr_errs_wider(narrow + defs, wide + defs, e);
        lemma_reports_narrow(wide, wide + defs, expr_errs(wide + defs, e), expr_errs(narrow + defs, e));
        lemma_reports_concat(wide, do_errs(wide, prefix), do_errs(narrow, prefix), expr_errs(wide + defs, e), expr_errs(narrow + defs, e));
    }
}

proof fn lemma_exprs_errs_wider(narrow: Seq<Seq<char>>, wide: Seq<Seq<char>>, es: Seq<Expr>)
    requires
        scope_within(narrow, wide),
    ensures
        reports_within(wide, exprs_errs(wide, es), exprs_errs(narrow, es)),
    decreases es,
{
    if es.len() > 0 {
        let prefix = es.subrange(0, es.len() - 1);
        lemma_exprs_errs_wider(narrow, wide, prefix);
        lemma_expr_errs_wider(narrow, wide, es[es.len() - 1]);
        lemma_reports_concat(wide, exprs_errs(wide, prefix), exprs_errs(narrow, prefix), expr_errs(wide, es[es.len() - 1]), expr_errs(narrow, es[es.len() - 1]));
    }
}

proof fn lemma_parts_errs_wider(narrow: Seq<Seq<char>>, wide: Seq<Seq<char>>, ps: Seq<StringInterpPart>)
    requires
        scope_within(narrow, wide),
    ensures
        reports_within(wide, parts_errs(wide, ps), parts_errs(narrow, ps)),
    decreases ps,
{
    if ps.len() > 0 {
        let prefix = ps.subrange(0, ps.len() - 1);
        lemma_parts_errs_wider(narrow, wide, prefix);
        match ps[ps.len() - 1] {
            StringInterpPart::Expr(e) => {
                assert(decreases_to!(ps => ps[ps.len() - 1]));
                lemma_expr_errs_wider(narrow, wide, e);
                lemma_reports_concat(wide, parts_errs(wide, prefix), parts_errs(narrow, prefix), expr_errs(wide, e), expr_errs(narrow, e));
            },
            StringInterpPart::Literal(_) => {
                assert(parts_errs(wide, ps) =~= parts_errs(wide, prefix) + Seq::<(Seq<char>, Span)>::empty());
                assert(parts_errs(narrow, ps) =~= parts_errs(narrow, prefix) + Seq::<(Seq<char>, Span)>::empty());
                lemma_reports_concat(wide, parts_errs(wide, prefix), parts_errs(narrow, prefix), Seq::<(Seq<char>, Span)>::empty(), Seq::<(Seq<char>, Span)>::empty());
            },
        }
    }
}

/// The variables that a pattern puts in scope are exactly those bound
/// somewhere inside it, a constructor's arguments and a tuple's elements
/// included.
pub proof fn law_pattern_vars_are_bound(p: Pattern, x: Seq<char>)
    ensures
        pattern_vars(p).contains(x) <==> binds(p, x),
    decreases p,
{
    match p {
        Pattern::Var(n) => {
            assert(pattern_vars(p) =~= seq![n@]);
            assert(pattern_vars(p)[0] == n@);
            assert(binds(p, x) == (n@ == x));
            if pattern_vars(p).contains(x) {
                let i = choose|i: int| 0 <= i < pattern_vars(p).len() && pattern_vars(p)[i] == x;
                assert(i == 0);
            }
        },
        Pattern::Successor(n, _) => {
            assert(pattern_vars(p) =~= seq![n@]);
            assert(pattern_vars(p)[0] == n@);
            assert(binds(p, x) == (n@ == x));
            if pattern_vars(p).contains(x) {
                let i = choose|i: int| 0 <= i < pattern_vars(p).len() && pattern_vars(p)[i] == x;
                assert(i == 0);
            }
        },
        Pattern::Constructor(_, args) => {
            lemma_patterns_vars_bound(args@, x);
        },
        Pattern::Tuple(ps) => {
            lemma_patterns_vars_bound(ps@, x);
        },
        _ => {
            assert(pattern_vars(p) =~= Seq::<Seq<char>>::empty());
            assert(!binds(p, x));
        },
    }
}

proof fn lemma_patterns_vars_bound(ps: Seq<Pattern>, x: Seq<char>)
    ensures
        patterns_vars(ps).contains(x) <==> any_binds(ps, x),
    decreases ps,
{
    if ps.len() > 0 {
        let prefix = ps.subrange(0, ps.len() - 1);
        let last = ps[ps.len() - 1];
        lemma_patterns_vars_bound(prefix, x);
        law_pattern_vars_are_bound(last, x);
        let a = patterns_vars(prefix);
        let b = pattern_vars(last);
        if (a + b).contains(x) {
            let i = choose|i: int| 0 <= i < (a + b).len() && (a + b)[i] == x;
            if i < a.len() {
                assert(a[i] == x);
            } else {
                assert(b[i - a.len()] == x);
            }
        }
        if a.contains(x) {
            let j = choose|j: int| 0 <= j < a.len() && a[j] == x;
            assert((a + b)[j] == x);
        }
        if b.contains(x) {
            let j = choose|j: int| 0 <= j < b.len() && b[j] == x;
            assert((a + b)[a.len() + j] == x);
        }
    }
}

/// Every variable bound anywhere inside a match arm's pattern is in scope in
/// that arm's body: where each name that the body leaves unresolved in the
/// enclosing scope `env` is bound by the pattern, the arm reports nothing.
pub proof fn law_pattern_variables_in_scope(env: Seq<Seq<char>>, p: Pattern, body: Expr)
    requires
        forall|k: int|
            0 <= k < expr_errs(env, body).len() ==> binds(p, #[trigger] expr_errs(env, body)[k].0),
    ensures
        expr_errs(env + pattern_vars(p), body) == Seq::<(Seq<char>, Span)>::empty(),
{
    assert forall|k: int| 0 <= k < expr_errs(env, body).len() implies pattern_vars(p).contains(
        #[trigger] expr_errs(env, body)[k].0,
    ) by {
        law_pattern_vars_are_bound(p, expr_errs(env, body)[k].0);
    }
    lemma_extra_covers(env, pattern_vars(p), body);
}

/// A match whose every arm's body uses only names defined around the match
/// and the variables that the arm's own pattern binds reports nothing but
/// what its scrutinee reports.
pub proof fn law_match_arms_in_scope(env: Seq<Seq<char>>, scrutinee: Expr, arms: Vec<MatchArm>)
    requires
        forall|j: int, k: int|
            0 <= j < arms@.len() && 0 <= k < expr_errs(env, arms@[j].body).len() ==> binds(
                arms@[j].pattern,
                #[trigger] expr_errs(env, arms@[j].body)[k].0,
            ),
    ensures
        expr_errs(env, (Expr::Match { scrutinee: Box::new(scrutinee), arms })) == expr_errs(
            env,
            scrutinee,
        ),
{
    lemma_arms_in_scope(env, arms@);
    assert(expr_errs(env, scrutinee) + arms_errs(env, arms@) =~= expr_errs(env, scrutinee));
}

proof fn lemma_arms_in_scope(env: Seq<Seq<char>>, arms: Seq<MatchArm>)
    requires
        forall|j: int, k: int|
            0 <= j < arms.len() && 0 <= k < expr_errs(env, arms[j].body).len() ==> binds(
                arms[j].pattern,
                #[trigger] expr_errs(env, arms[j].body)[k].0,
            ),
    ensures
        arms_errs(env, arms) == Seq::<(Seq<char>, Span)>::empty(),
    decreases arms,
{
    if arms.len() > 0 {
        let prefix = arms.subrange(0, arms.len() - 1);
        let arm = arms[arms.len() - 1];
        assert forall|j: int, k: int|
            0 <= j < prefix.len() && 0 <= k < expr_errs(env, prefix[j].body).len() implies binds(
                prefix[j].pattern,
                #[trigger] expr_errs(env, prefix[j].body)[k].0,
            ) by {
            assert(prefix[j] == arms[j]);
        }
        lemma_arms_in_scope(env, prefix);
        assert forall|k: int| 0 <= k < expr_errs(env, arm.body).len() implies binds(
            arm.pattern,
            #[trigger] expr_errs(env, arm.body)[k].0,
        ) by {
            assert(expr_errs(env, arms[arms.len() - 1].body)[k] == expr_errs(env, arm.body)[k]);
        }
        law_pattern_variables_in_scope(env, arm.pattern, arm.body);
        assert(arms_errs(env, arms) =~= Seq::<(Seq<char>, Span)>::empty());
    }
}

/// Names added to the scope resolve every occurrence they cover.
proof fn lemma_extra_covers(env: Seq<Seq<char>>, extra: Seq<Seq<char>>, body: Expr)
    requires
        forall|k: int|
            0 <= k < expr_errs(env, body).len() ==> extra.contains(#[trigger] expr_errs(env, body)[k].0),
    ensures
        expr_errs(env + extra, body) == Seq::<(Seq<char>, Span)>::empty(),
{
    let wide = env + extra;
    lemma_scope_extend(env, env, extra);
    lemma_expr_errs_wider(env, wide, body);
    let errs = expr_errs(wide, body);
    if errs.len() > 0 {
        let j = choose|j: int| 0 <= j < expr_errs(env, body).len() && expr_errs(env, body)[j] == errs[0];
        assert(extra.contains(errs[0].0));
        let i = choose|i: int| 0 <= i < extra.len() && extra[i] == errs[0].0;
        assert(wide[env.len() + i] == errs[0].0);
    }
    assert(errs =~= Seq::<(Seq<char>, Span)>::empty());
}

/// A `let`'s name is in scope in its body: where the body leaves no name
/// unresolved but that one, the `let` reports only what its value reports.
pub proof fn law_let_name_in_scope(
    env: Seq<Seq<char>>,
    name: String,
    ty: Option<Type>,
    value: Expr,
    body: Expr,
)
    requires
        forall|k: int| 0 <= k < expr_errs(env, body).len() ==> #[trigger] expr_errs(env, body)[k].0 == name@,
    ensures
        expr_errs(env, (Expr::Let { name, ty, value: Box::new(value), body: Box::new(body) })) == expr_errs(
            env,
            value,
        ),
{
    assert forall|k: int| 0 <= k < expr_errs(env, body).len() implies seq![name@].contains(
        #[trigger] expr_errs(env, body)[k].0,
    ) by {
        assert(seq![name@][0] == name@);
    }
    lemma_extra_covers(env, seq![name@], body);
    assert(env.push(name@) =~= env + seq![name@]);
    assert(expr_errs(env, value) + Seq::<(Seq<char>, Span)>::empty() =~= expr_errs(env, value));
}

/// A lambda's parameters are in scope in its body: where each name that the
/// body leaves unresolved is a parameter, the lambda reports nothing.
pub proof fn law_lambda_params_in_scope(
    env: Seq<Seq<char>>,
    params: Vec<(String, Option<Type>)>,
    body: Expr,
)
    requires
        forall|k: int|
            0 <= k < expr_errs(env, body).len() ==> lambda_names(params@).contains(
                #[trigger] expr_errs(env, body)[k].0,
            ),
    ensures
        expr_errs(env, (Expr::Lambda { params, body: Box::new(body) })) == Seq::<(Seq<char>, Span)>::empty(),
{
    lemma_extra_covers(env, lambda_names(params@), body);
}

} // verus!
