//! Rust code generation: renders a checked program as Rust source text,
//! leaving out the declarations its entry points cannot reach.

use vstd::prelude::*;

use crate::ast::{join_with, views, BinOp, Constructor, Decl, DoStatement, Expr, MatchArm, Pattern, StringInterpPart, Type, UnaryOp};
use crate::error::{CompilerError, LustcResult};
use crate::resolver::{dotted, last_dot, parses_as_usize, unsigned_digits};
use crate::text::{chars_of, copy_string, decimal, push_char, push_decimal};

verus! {

// ---------------------------------------------------------------------------
// Text helpers
// ---------------------------------------------------------------------------

pub open spec fn is_ascii_upper(c: char) -> bool {
    'A' <= c && c <= 'Z'
}

pub open spec fn is_ascii_lower(c: char) -> bool {
    'a' <= c && c <= 'z'
}

pub open spec fn ascii_lower(c: char) -> char {
    if is_ascii_upper(c) {
        ((c as u32) + 32) as char
    } else {
        c
    }
}

pub open spec fn ascii_upper(c: char) -> char {
    if is_ascii_lower(c) {
        ((c as u32) - 32) as char
    } else {
        c
    }
}

/// `camelCase` to `snake_case`: every ASCII capital becomes `_` and its small
/// letter (no `_` before a leading capital).
pub open spec fn snake(s: Seq<char>) -> Seq<char>
    decreases s.len(),
{
    if s.len() == 0 {
        seq![]
    } else {
        let c = s.last();
        snake(s.drop_last()) + if is_ascii_upper(c) {
            if s.len() > 1 {
                seq!['_', ascii_lower(c)]
            } else {
                seq![ascii_lower(c)]
            }
        } else {
            seq![c]
        }
    }
}

/// `snake_case` to `PascalCase`: `_` is dropped and the character after it,
/// like the first one, is capitalised.
pub open spec fn pascal(s: Seq<char>) -> Seq<char>
    decreases s.len(),
{
    if s.len() == 0 {
        seq![]
    } else {
        let c = s.last();
        let p = s.drop_last();
        pascal(p) + if c == '_' {
            seq![]
        } else if p.len() == 0 || p.last() == '_' {
            seq![ascii_upper(c)]
        } else {
            seq![c]
        }
    }
}

/// The pieces joined by `sep`.
pub open spec fn join_text(parts: Seq<Seq<char>>, sep: Seq<char>) -> Seq<char>
    decreases parts.len(),
{
    if parts.len() == 0 {
        seq![]
    } else if parts.len() == 1 {
        parts[0]
    } else {
        join_text(parts.drop_last(), sep) + sep + parts.last()
    }
}

pub proof fn lemma_join_push(parts: Seq<Seq<char>>, sep: Seq<char>, p: Seq<char>)
    ensures
        join_text(parts.push(p), sep) == if parts.len() == 0 {
            p
        } else {
            join_text(parts, sep) + sep + p
        },
{
    assert(parts.push(p).drop_last() =~= parts);
}

/// `n` levels of indentation, four spaces each.
pub open spec fn indent_text(n: nat) -> Seq<char>
    decreases n,
{
    if n == 0 {
        seq![]
    } else {
        indent_text((n - 1) as nat) + "    "@
    }
}

/// A character escaped for a Rust string literal.
pub open spec fn escape_char(c: char) -> Seq<char> {
    if c == '\\' {
        seq!['\\', '\\']
    } else if c == '"' {
        seq!['\\', '"']
    } else {
        seq![c]
    }
}

pub open spec fn escape_text(s: Seq<char>) -> Seq<char>
    decreases s.len(),
{
    if s.len() == 0 {
        seq![]
    } else {
        escape_text(s.drop_last()) + escape_char(s.last())
    }
}

/// A character escaped for the template of `format!`: braces doubled, then
/// escaped as in any string literal.
pub open spec fn template_char(c: char) -> Seq<char> {
    if c == '{' {
        seq!['{', '{']
    } else if c == '}' {
        seq!['}', '}']
    } else {
        escape_char(c)
    }
}

pub open spec fn template_text(s: Seq<char>) -> Seq<char>
    decreases s.len(),
{
    if s.len() == 0 {
        seq![]
    } else {
        template_text(s.drop_last()) + template_char(s.last())
    }
}

/// The position of the first `.` in `s`, if any.
pub open spec fn first_dot(s: Seq<char>) -> Option<int>
    decreases s.len(),
{
    if s.len() == 0 {
        None
    } else {
        match first_dot(s.drop_last()) {
            Some(d) => Some(d),
            None => if s.last() == '.' {
                Some(s.len() - 1)
            } else {
                None
            },
        }
    }
}

pub proof fn lemma_first_dot(s: Seq<char>)
    ensures
        first_dot(s) matches Some(d) ==> 0 <= d < s.len() && s[d] == '.' && !s.subrange(0, d).contains('.'),
        first_dot(s) is None ==> !s.contains('.'),
    decreases s.len(),
{
    if s.len() > 0 {
        lemma_first_dot(s.drop_last());
        match first_dot(s.drop_last()) {
            Some(d) => {
                assert(s.drop_last().subrange(0, d) =~= s.subrange(0, d));
            },
            None => {
                if s.last() == '.' {
                    assert(s.subrange(0, s.len() - 1) =~= s.drop_last());
                } else {
                    assert forall|i: int| 0 <= i < s.len() implies s[i] != '.' by {
                        if i < s.len() - 1 {
                            assert(s.drop_last()[i] == s[i]);
                        }
                    }
                }
            },
        }
    }
}

// ---------------------------------------------------------------------------
// Types and operators
// ---------------------------------------------------------------------------

/// The Rust type a written type becomes.
pub open spec fn rust_type(t: Type) -> Seq<char>
    decreases t,
{
    match t {
        Type::Named(n) => named_rust_type(n@),
        Type::Arrow(a, b) => "fn("@ + rust_type(*a) + ") -> "@ + rust_type(*b),
        Type::App(base, arg) => match *base {
            Type::Named(n) => if n@ == "IO"@ {
                "()"@
            } else if n@ == "List"@ {
                "Vec<"@ + rust_type(*arg) + ">"@
            } else if n@ == "Option"@ {
                "Option<"@ + rust_type(*arg) + ">"@
            } else {
                named_rust_type(n@)
            },
            _ => rust_type(*base),
        },
        Type::Tuple(ts) => "("@ + join_text(rust_types(ts@), ", "@) + ")"@,
        Type::Unit => "()"@,
    }
}

pub open spec fn named_rust_type(n: Seq<char>) -> Seq<char> {
    if n == "Nat"@ {
        "u64"@
    } else if n == "Int"@ {
        "i64"@
    } else if n == "Bool"@ {
        "bool"@
    } else if n == "String"@ {
        "String"@
    } else {
        n
    }
}

pub open spec fn rust_types(ts: Seq<Type>) -> Seq<Seq<char>>
    decreases ts,
{
    if ts.len() == 0 {
        seq![]
    } else {
        rust_types(ts.subrange(0, ts.len() - 1)).push(rust_type(ts[ts.len() - 1]))
    }
}

/// The Rust operator for a binary operator.
pub open spec fn binop_text(op: BinOp) -> Seq<char> {
    match op {
        BinOp::Add => "+"@,
        BinOp::Sub => "-"@,
        BinOp::Mul => "*"@,
        BinOp::Div => "/"@,
        BinOp::Mod => "%"@,
        BinOp::Eq => "=="@,
        BinOp::Ne => "!="@,
        BinOp::Lt => "<"@,
        BinOp::Le => "<="@,
        BinOp::Gt => ">"@,
        BinOp::Ge => ">="@,
        BinOp::And => "&&"@,
        BinOp::Or => "||"@,
    }
}

/// Whether a written result type is `IO Unit`.
pub open spec fn is_io_unit_type(t: Option<Type>) -> bool {
    match t {
        Some(Type::App(base, arg)) => (match *base {
            Type::Named(n) => n@ == "IO"@,
            _ => false,
        }) && (match *arg {
            Type::Unit => true,
            Type::Named(n) => n@ == "Unit"@,
            _ => false,
        }),
        _ => false,
    }
}

/// The Rust name of a constructor in a pattern.
pub open spec fn ctor_text(name: Seq<char>) -> Seq<char> {
    if name == "Option.none"@ {
        "None"@
    } else if name == "Option.some"@ {
        "Some"@
    } else {
        match first_dot(name) {
            Some(d) => name.subrange(0, d) + "::"@ + pascal(name.subrange(d + 1, name.len() as int)),
            None => pascal(name),
        }
    }
}

/// The Rust form of a pattern.
pub open spec fn pattern_code(p: Pattern) -> Seq<char>
    decreases p,
{
    match p {
        Pattern::IntLit(n) => decimal(n as nat),
        Pattern::Var(name) => snake(name@),
        Pattern::Constructor(name, args) => {
            let t = ctor_text(name@);
            let inner = if args@.len() == 0 {
                seq![]
            } else {
                "("@ + join_text(patterns_code(args@), ", "@) + ")"@
            };
            if t == "None"@ || name@ == "Option.none"@ {
                "None"@
            } else if (t.len() >= 4 && t.subrange(0, 4) == "Some"@) || name@ == "Option.some"@ {
                "Some"@ + inner
            } else {
                t + inner
            }
        },
        Pattern::Wildcard => "_"@,
        Pattern::Successor(name, _) => snake(name@),
        Pattern::Tuple(ps) => "("@ + join_text(patterns_code(ps@), ", "@) + ")"@,
    }
}

pub open spec fn patterns_code(ps: Seq<Pattern>) -> Seq<Seq<char>>
    decreases ps,
{
    if ps.len() == 0 {
        seq![]
    } else {
        patterns_code(ps.subrange(0, ps.len() - 1)).push(pattern_code(ps[ps.len() - 1]))
    }
}

// ---------------------------------------------------------------------------
// Executable text helpers
// ---------------------------------------------------------------------------

fn lower_ascii(c: char) -> (r: char)
    requires
        is_ascii_upper(c),
    ensures
        r == ascii_lower(c),
{
    let b: u8 = ((c as u32) + 32) as u8;
    b as char
}

fn upper_ascii(c: char) -> (r: char)
    ensures
        r == ascii_upper(c),
{
    if 'a' <= c && c <= 'z' {
        let b: u8 = ((c as u32) - 32) as u8;
        b as char
    } else {
        c
    }
}

/// Appends `s` in `snake_case`.
fn push_snake(out: &mut String, s: &str)
    ensures
        final(out)@ == old(out)@ + snake(s@),
{
    let v = chars_of(s);
    let mut i: usize = 0;
    while i < v.len()
        invariant
            i <= v@.len(),
            v@ == s@,
            out@ == old(out)@ + snake(v@.subrange(0, i as int)),
        decreases v.len() - i,
    {
        let c = v[i];
        assert(v@.subrange(0, i + 1).drop_last() =~= v@.subrange(0, i as int));
        if 'A' <= c && c <= 'Z' {
            if i > 0 {
                push_char(out, '_');
            }
            push_char(out, lower_ascii(c));
        } else {
            push_char(out, c);
        }
        assert(out@ =~= old(out)@ + snake(v@.subrange(0, i + 1)));
        i += 1;
    }
    assert(v@.subrange(0, i as int) =~= v@);
}

/// `s` in `snake_case`.
pub fn to_snake_case(s: &str) -> (r: String)
    ensures
        r@ == snake(s@),
{
    let mut r = String::new();
    push_snake(&mut r, s);
    r
}

/// Appends `s` in `PascalCase`.
fn push_pascal(out: &mut String, s: &str)
    ensures
        final(out)@ == old(out)@ + pascal(s@),
{
    let v = chars_of(s);
    let mut capitalize_next = true;
    let mut i: usize = 0;
    while i < v.len()
        invariant
            i <= v@.len(),
            v@ == s@,
            out@ == old(out)@ + pascal(v@.subrange(0, i as int)),
            capitalize_next == (i == 0 || v@[i - 1] == '_'),
        decreases v.len() - i,
    {
        let c = v[i];
        assert(v@.subrange(0, i + 1).drop_last() =~= v@.subrange(0, i as int));
        if c == '_' {
            capitalize_next = true;
        } else if capitalize_next {
            push_char(out, upper_ascii(c));
            capitalize_next = false;
        } else {
            push_char(out, c);
        }
        assert(out@ =~= old(out)@ + pascal(v@.subrange(0, i + 1)));
        i += 1;
    }
    assert(v@.subrange(0, i as int) =~= v@);
}

/// `s` in `PascalCase`.
pub fn to_pascal_case(s: &str) -> (r: String)
    ensures
        r@ == pascal(s@),
{
    let mut r = String::new();
    push_pascal(&mut r, s);
    r
}

/// Appends `s` escaped for a string literal.
fn push_escaped(out: &mut String, s: &str)
    ensures
        final(out)@ == old(out)@ + escape_text(s@),
{
    let v = chars_of(s);
    let mut i: usize = 0;
    while i < v.len()
        invariant
            i <= v@.len(),
            v@ == s@,
            out@ == old(out)@ + escape_text(v@.subrange(0, i as int)),
        decreases v.len() - i,
    {
        let c = v[i];
        assert(v@.subrange(0, i + 1).drop_last() =~= v@.subrange(0, i as int));
        if c == '\\' {
            push_char(out, '\\');
            push_char(out, '\\');
        } else if c == '"' {
            push_char(out, '\\');
            push_char(out, '"');
        } else {
            push_char(out, c);
        }
        assert(out@ =~= old(out)@ + escape_text(v@.subrange(0, i + 1)));
        i += 1;
    }
    assert(v@.subrange(0, i as int) =~= v@);
}

/// Appends `s` escaped for the template of `format!`.
fn push_template(out: &mut String, s: &str)
    ensures
        final(out)@ == old(out)@ + template_text(s@),
{
    let v = chars_of(s);
    let mut i: usize = 0;
    while i < v.len()
        invariant
            i <= v@.len(),
            v@ == s@,
            out@ == old(out)@ + template_text(v@.subrange(0, i as int)),
        decreases v.len() - i,
    {
        let c = v[i];
        assert(v@.subrange(0, i + 1).drop_last() =~= v@.subrange(0, i as int));
        if c == '{' {
            push_char(out, '{');
            push_char(out, '{');
        } else if c == '}' {
            push_char(out, '}');
            push_char(out, '}');
        } else if c == '\\' {
            push_char(out, '\\');
            push_char(out, '\\');
        } else if c == '"' {
            push_char(out, '\\');
            push_char(out, '"');
        } else {
            push_char(out, c);
        }
        assert(out@ =~= old(out)@ + template_text(v@.subrange(0, i + 1)));
        i += 1;
    }
    assert(v@.subrange(0, i as int) =~= v@);
}

/// The position of the first `.` in `v`.
fn find_first_dot(v: &Vec<char>) -> (r: Option<usize>)
    ensures
        match first_dot(v@) {
            Some(d) => r == Some(d as usize),
            None => r is None,
        },
{
    proof {
        lemma_first_dot(v@);
    }
    let mut i: usize = 0;
    while i < v.len()
        invariant
            i <= v@.len(),
            forall|j: int| 0 <= j < i ==> v@[j] != '.',
        decreases v.len() - i,
    {
        if v[i] == '.' {
            proof {
                lemma_first_dot(v@);
                match first_dot(v@) {
                    Some(d) => {
                        if d < i {
                            assert(v@[d] == '.');
                        } else if d > i {
                            assert(v@.subrange(0, d)[i as int] == '.');
                        }
                    },
                    None => {
                        assert(v@.contains('.')) by {
                            assert(v@[i as int] == '.');
                        }
                    },
                }
            }
            return Some(i);
        }
        i += 1;
    }
    proof {
        match first_dot(v@) {
            Some(d) => {
                assert(v@[d] == '.');
            },
            None => {},
        }
    }
    None
}

/// Appends the Rust operator for `op`.
fn binop_to_rust(op: &BinOp) -> (r: &'static str)
    ensures
        r@ == binop_text(*op),
{
    match op {
        BinOp::Add => "+",
        BinOp::Sub => "-",
        BinOp::Mul => "*",
        BinOp::Div => "/",
        BinOp::Mod => "%",
        BinOp::Eq => "==",
        BinOp::Ne => "!=",
        BinOp::Lt => "<",
        BinOp::Le => "<=",
        BinOp::Gt => ">",
        BinOp::Ge => ">=",
        BinOp::And => "&&",
        BinOp::Or => "||",
    }
}

/// Whether a written result type is `IO Unit`.
fn is_io_unit(ty: &Option<Type>) -> (r: bool)
    ensures
        r == is_io_unit_type(*ty),
{
    match ty {
        Some(Type::App(base, arg)) => {
            let is_io = match &**base {
                Type::Named(n) => crate::text::str_is(n.as_str(), "IO"),
                _ => false,
            };
            let is_unit = match &**arg {
                Type::Unit => true,
                Type::Named(n) => crate::text::str_is(n.as_str(), "Unit"),
                _ => false,
            };
            is_io && is_unit
        },
        _ => false,
    }
}

/// Appends the Rust type a written type becomes.
fn push_rust_type(out: &mut String, ty: &Type)
    ensures
        final(out)@ == old(out)@ + rust_type(*ty),
    decreases ty,
{
    match ty {
        Type::Named(name) => push_named_type(out, name),
        Type::Arrow(from, to) => {
            out.append("fn(");
            push_rust_type(out, from);
            out.append(") -> ");
            push_rust_type(out, to);
        },
        Type::App(base, arg) => {
            match &**base {
                Type::Named(name) => {
                    if crate::text::str_is(name.as_str(), "IO") {
                        out.append("()");
                    } else if crate::text::str_is(name.as_str(), "List") {
                        out.append("Vec<");
                        push_rust_type(out, arg);
                        out.append(">");
                    } else if crate::text::str_is(name.as_str(), "Option") {
                        out.append("Option<");
                        push_rust_type(out, arg);
                        out.append(">");
                    } else {
                        push_named_type(out, name);
                    }
                },
                _ => push_rust_type(out, base),
            }
        },
        Type::Tuple(types) => {
            out.append("(");
            let ghost start = out@;
            let mut i: usize = 0;
            while i < types.len()
                invariant
                    i <= types@.len(),
                    *ty == Type::Tuple(*types),
                    out@ == start + join_text(rust_types(types@.subrange(0, i as int)), ", "@),
                decreases types.len() - i,
            {
                proof {
                    assert(decreases_to!(*ty => (*ty)->Tuple_0));
                    assert(decreases_to!(*types => types[i as int]));
                    assert(types@.subrange(0, i + 1).subrange(0, i as int) =~= types@.subrange(0, i as int));
                    lemma_join_push(rust_types(types@.subrange(0, i as int)), ", "@, rust_type(types@[i as int]));
                }
                if i > 0 {
                    out.append(", ");
                }
                push_rust_type(out, &types[i]);
                i += 1;
            }
            assert(types@.subrange(0, i as int) =~= types@);
            out.append(")");
        },
        Type::Unit => out.append("()"),
    }
}

fn push_named_type(out: &mut String, name: &String)
    ensures
        final(out)@ == old(out)@ + named_rust_type(name@),
{
    if crate::text::str_is(name.as_str(), "Nat") {
        out.append("u64");
    } else if crate::text::str_is(name.as_str(), "Int") {
        out.append("i64");
    } else if crate::text::str_is(name.as_str(), "Bool") {
        out.append("bool");
    } else if crate::text::str_is(name.as_str(), "String") {
        out.append("String");
    } else {
        out.append(name.as_str());
    }
}

/// Appends the Rust name of a constructor in a pattern.
fn push_ctor(out: &mut String, name: &String)
    ensures
        final(out)@ == old(out)@ + ctor_text(name@),
{
    if crate::text::str_is(name.as_str(), "Option.none") {
        out.append("None");
    } else if crate::text::str_is(name.as_str(), "Option.some") {
        out.append("Some");
    } else {
        let v = chars_of(name.as_str());
        match find_first_dot(&v) {
            Some(d) => {
                proof {
                    lemma_first_dot(v@);
                }
                let head = crate::text::string_from_prefix(&v, d);
                assert(head@ =~= name@.subrange(0, d as int));
                out.append(head.as_str());
                out.append("::");
                let rest = suffix_string(&v, d + 1);
                push_pascal(out, rest.as_str());
            },
            None => push_pascal(out, name.as_str()),
        }
    }
}

/// `v[from..]` as a `String`.
fn suffix_string(v: &Vec<char>, from: usize) -> (r: String)
    requires
        from <= v@.len(),
    ensures
        r@ == v@.subrange(from as int, v@.len() as int),
{
    let mut r = String::new();
    let mut i = from;
    while i < v.len()
        invariant
            from <= i <= v@.len(),
            r@ == v@.subrange(from as int, i as int),
        decreases v.len() - i,
    {
        push_char(&mut r, v[i]);
        assert(r@ =~= v@.subrange(from as int, i + 1));
        i += 1;
    }
    r
}

// ---------------------------------------------------------------------------
// What the generator learns about a program before emitting it
// ---------------------------------------------------------------------------

/// The tables the generator consults, as mathematical values. Tables keyed
/// by name are lists of entries, the latest entry for a key counting.
#[verifier::ext_equal]
pub struct GenInfo {
    pub inductives: Seq<Seq<char>>,
    pub structs: Seq<(Seq<char>, Seq<Seq<char>>)>,
    pub namespaces: Seq<Seq<char>>,
    pub zero_arg: Seq<Seq<char>>,
    pub opened: Seq<Seq<char>>,
    pub members: Seq<(Seq<char>, Seq<Seq<char>>)>,
}

/// The latest entry for `key`.
pub open spec fn latest(entries: Seq<(Seq<char>, Seq<Seq<char>>)>, key: Seq<char>) -> Option<
    Seq<Seq<char>>,
>
    decreases entries.len(),
{
    if entries.len() == 0 {
        None
    } else if entries.last().0 == key {
        Some(entries.last().1)
    } else {
        latest(entries.drop_last(), key)
    }
}

/// `prefix.name`, or `name` when there is no prefix.
pub open spec fn qualify(prefix: Seq<char>, name: Seq<char>) -> Seq<char> {
    if prefix.len() == 0 {
        name
    } else {
        dotted(prefix, name)
    }
}

/// The names of the definitions, types and structures among `ds`.
pub open spec fn member_names(ds: Seq<Decl>) -> Seq<Seq<char>>
    decreases ds.len(),
{
    if ds.len() == 0 {
        seq![]
    } else {
        member_names(ds.drop_last()) + match ds.last() {
            Decl::FunDef { name, .. } => seq![name@],
            Decl::FunDefMatch { name, .. } => seq![name@],
            Decl::InductiveDef { name, .. } => seq![name@],
            Decl::StructDef { name, .. } => seq![name@],
            _ => seq![],
        }
    }
}

/// The names of a structure's fields.
pub open spec fn field_names_of(fs: Seq<(String, Type)>) -> Seq<Seq<char>> {
    fs.map_values(|f: (String, Type)| f.0@)
}

/// A definition called without arguments: no parameters (and, for a
/// pattern-matching one, no arrow type to take them from), and not `main`.
pub open spec fn is_zero_arg(d: Decl) -> bool {
    match d {
        Decl::FunDef { name, params, .. } => params@.len() == 0 && name@ != "main"@,
        Decl::FunDefMatch { name, params, return_type, .. } => params@.len() == 0 && name@
            != "main"@ && !(return_type matches Some(Type::Arrow(_, _))),
        _ => false,
    }
}

/// The first pass over one declaration.
pub open spec fn info_decl(info: GenInfo, d: Decl, prefix: Seq<char>) -> GenInfo
    decreases d, 2nat,
{
    match d {
        Decl::FunDef { name, .. } | Decl::FunDefMatch { name, .. } => if is_zero_arg(d) {
            GenInfo {
                zero_arg: info.zero_arg + seq![name@] + crate::resolver::opt_prefixed(prefix, name@),
                ..info
            }
        } else {
            info
        },
        Decl::InductiveDef { name, .. } => GenInfo { inductives: info.inductives.push(name@), ..info },
        Decl::StructDef { name, fields } => GenInfo {
            structs: info.structs.push((name@, field_names_of(fields@))),
            ..info
        },
        Decl::Namespace { name, decls } => {
            let i1 = GenInfo {
                namespaces: info.namespaces.push(name@),
                members: info.members.push((name@, member_names(decls@))),
                ..info
            };
            info_collect(i1, decls@, qualify(prefix, name@))
        },
        _ => info,
    }
}

/// The first pass over a list of declarations.
pub open spec fn info_decls(info: GenInfo, ds: Seq<Decl>, prefix: Seq<char>) -> GenInfo
    decreases ds, 0nat,
{
    if ds.len() == 0 {
        info
    } else {
        info_decl(info_decls(info, ds.subrange(0, ds.len() - 1), prefix), ds[ds.len() - 1], prefix)
    }
}

/// The namespaces that `import` and `open` declarations open, in order.
pub open spec fn opens_of(ds: Seq<Decl>) -> Seq<Seq<char>>
    decreases ds.len(),
{
    if ds.len() == 0 {
        seq![]
    } else {
        opens_of(ds.drop_last()) + match ds.last() {
            Decl::Import { path } => if path.segments@.len() > 0
                && path.segments@.last()@.len() > 0 {
                seq![path.segments@.last()@]
            } else {
                seq![]
            },
            Decl::Open { path } => if path.segments@.len() == 1 {
                seq![path.segments@[0]@]
            } else {
                seq![join_with(views(path.segments@), '.')]
            },
            _ => seq![],
        }
    }
}

/// Both passes over a list of declarations under `prefix`.
pub open spec fn info_collect(info: GenInfo, ds: Seq<Decl>, prefix: Seq<char>) -> GenInfo
    decreases ds, 1nat,
{
    let i1 = info_decls(info, ds, prefix);
    GenInfo { opened: i1.opened + opens_of(ds), ..i1 }
}

/// The first opened namespace that has `name` as a member.
pub open spec fn opened_owner(info: GenInfo, opened: Seq<Seq<char>>, name: Seq<char>) -> Option<
    Seq<char>,
>
    decreases opened.len(),
{
    if opened.len() == 0 {
        None
    } else if latest(info.members, opened[0]) matches Some(ms) && ms.contains(name) {
        Some(opened[0])
    } else {
        opened_owner(info, opened.drop_first(), name)
    }
}

/// `t()` for a name called without arguments, else `t`.
pub open spec fn call_if_zero_arg(info: GenInfo, t: Seq<char>, is_zero: bool) -> Seq<char> {
    if is_zero {
        t + "()"@
    } else {
        t
    }
}

/// The Rust form of a variable occurrence.
pub open spec fn var_code(info: GenInfo, name: Seq<char>) -> Seq<char> {
    let dot = last_dot(name);
    if dot is Some && parses_as_usize(name.subrange(dot->0 + 1, name.len() as int)) {
        let obj = name.subrange(0, dot->0);
        let idx = crate::lexer::digits_value(unsigned_digits(name.subrange(dot->0 + 1, name.len() as int)));
        snake(obj) + seq!['.'] + decimal(if idx >= 1 { (idx - 1) as nat } else { 0 })
    } else if dot is Some && info.inductives.contains(name.subrange(0, dot->0)) {
        name.subrange(0, dot->0) + "::"@ + pascal(name.subrange(dot->0 + 1, name.len() as int))
    } else if dot is Some && info.namespaces.contains(name.subrange(0, dot->0)) {
        call_if_zero_arg(
            info,
            snake(name.subrange(0, dot->0)) + "::"@ + snake(name.subrange(dot->0 + 1, name.len() as int)),
            info.zero_arg.contains(name),
        )
    } else if name == "List.nil"@ {
        "vec![]"@
    } else if name == "Option.none"@ {
        "None"@
    } else if !name.contains('.') && opened_owner(info, info.opened, name) is Some {
        let ns = opened_owner(info, info.opened, name)->0;
        call_if_zero_arg(
            info,
            snake(ns) + "::"@ + snake(name),
            info.zero_arg.contains(dotted(ns, name)) || info.zero_arg.contains(name),
        )
    } else {
        call_if_zero_arg(info, snake(name), info.zero_arg.contains(name))
    }
}

/// The views of a table of names with their lists of names.
pub open spec fn entries_view(v: Seq<(String, Vec<String>)>) -> Seq<(Seq<char>, Seq<Seq<char>>)> {
    v.map_values(|p: (String, Vec<String>)| (p.0@, views(p.1@)))
}

/// Whether `v` holds `s`.
fn contains_name(v: &Vec<String>, s: &str) -> (r: bool)
    ensures
        r == views(v@).contains(s@),
{
    let mut i: usize = 0;
    while i < v.len()
        invariant
            i <= v@.len(),
            forall|j: int| 0 <= j < i ==> v@[j]@ != s@,
        decreases v.len() - i,
    {
        if crate::text::str_is(v[i].as_str(), s) {
            assert(views(v@)[i as int] == s@);
            return true;
        }
        i += 1;
    }
    assert forall|j: int| 0 <= j < views(v@).len() implies views(v@)[j] != s@ by {
        assert(views(v@)[j] == v@[j]@);
    }
    false
}

/// The index of the latest entry for `key`.
fn latest_index(v: &Vec<(String, Vec<String>)>, key: &str) -> (r: Option<usize>)
    ensures
        match latest(entries_view(v@), key@) {
            Some(ms) => r matches Some(i) && i < v@.len() && views(v@[i as int].1@) == ms,
            None => r is None,
        },
{
    let mut i = v.len();
    assert(entries_view(v@).take(i as int) =~= entries_view(v@));
    while i > 0
        invariant
            i <= v@.len(),
            entries_view(v@).len() == v@.len(),
            latest(entries_view(v@), key@) == latest(entries_view(v@).take(i as int), key@),
        decreases i,
    {
        let ghost t = entries_view(v@).take(i as int);
        assert(t.last() == (v@[i - 1].0@, views(v@[i - 1].1@)));
        if crate::text::str_is(v[i - 1].0.as_str(), key) {
            return Some(i - 1);
        }
        assert(t.drop_last() =~= entries_view(v@).take(i - 1));
        i -= 1;
    }
    None
}

// ---------------------------------------------------------------------------
// The generator
// ---------------------------------------------------------------------------

/// Emits Rust source for a program. Besides its output and indentation it
/// keeps the tables `GenInfo` describes, as lists.
pub struct CodeGen {
    output: String,
    /// One entry per indentation level.
    indent: Vec<u8>,
    inductive_names: Vec<String>,
    struct_fields: Vec<(String, Vec<String>)>,
    namespace_names: Vec<String>,
    zero_arg_fns: Vec<String>,
    opened_namespaces: Vec<String>,
    namespace_members: Vec<(String, Vec<String>)>,
}

impl CodeGen {
    /// The tables.
    pub closed spec fn info(&self) -> GenInfo {
        GenInfo {
            inductives: views(self.inductive_names@),
            structs: entries_view(self.struct_fields@),
            namespaces: views(self.namespace_names@),
            zero_arg: views(self.zero_arg_fns@),
            opened: views(self.opened_namespaces@),
            members: entries_view(self.namespace_members@),
        }
    }

    /// What has been emitted so far.
    pub closed spec fn emitted(&self) -> Seq<char> {
        self.output@
    }

    /// Between two calls of `generate`: at the outermost indentation level.
    pub closed spec fn wf(&self) -> bool {
        self.indent@.len() == 0
    }

    /// The current indentation level.
    closed spec fn level(&self) -> nat {
        self.indent@.len()
    }

    pub fn new() -> (r: CodeGen)
        ensures
            r.wf(),
            r.emitted() == Seq::<char>::empty(),
            r.info() == (GenInfo {
                inductives: seq![],
                structs: seq![],
                namespaces: seq![],
                zero_arg: seq![],
                opened: seq![],
                members: seq![],
            }),
    {
        let r = CodeGen {
            output: String::new(),
            indent: Vec::new(),
            inductive_names: Vec::new(),
            struct_fields: Vec::new(),
            namespace_names: Vec::new(),
            zero_arg_fns: Vec::new(),
            opened_namespaces: Vec::new(),
            namespace_members: Vec::new(),
        };
        assert(r.info().inductives =~= seq![]);
        assert(r.info().structs =~= seq![]);
        assert(r.info().namespaces =~= seq![]);
        assert(r.info().zero_arg =~= seq![]);
        assert(r.info().opened =~= seq![]);
        assert(r.info().members =~= seq![]);
        r
    }

    /// Appends the name of a zero-argument definition (and its qualified
    /// name under a prefix).
    fn add_zero_arg(&mut self, name: &String, prefix: &String)
        ensures
            final(self).info() == (GenInfo {
                zero_arg: old(self).info().zero_arg + seq![name@] + crate::resolver::opt_prefixed(prefix@, name@),
                ..old(self).info()
            }),
            final(self).output == old(self).output,
            final(self).indent == old(self).indent,
    {
        let ghost z0 = views(self.zero_arg_fns@);
        let n = copy_string(name);
        proof {
            crate::resolver::lemma_views_push(self.zero_arg_fns@, n);
        }
        self.zero_arg_fns.push(n);
        if prefix.as_str().unicode_len() > 0 {
            let mut q = copy_string(prefix);
            push_char(&mut q, '.');
            q.append(name.as_str());
            proof {
                crate::resolver::lemma_views_push(self.zero_arg_fns@, q);
            }
            self.zero_arg_fns.push(q);
            assert(q@ =~= dotted(prefix@, name@));
            assert(views(self.zero_arg_fns@) =~= z0 + seq![name@] + crate::resolver::opt_prefixed(prefix@, name@));
        } else {
            assert(views(self.zero_arg_fns@) =~= z0 + seq![name@] + crate::resolver::opt_prefixed(prefix@, name@));
        }
        assert(views(self.zero_arg_fns@) =~= z0 + seq![name@] + crate::resolver::opt_prefixed(prefix@, name@));
        assert(self.info() =~= (GenInfo {
            zero_arg: old(self).info().zero_arg + seq![name@] + crate::resolver::opt_prefixed(prefix@, name@),
            ..old(self).info()
        }));
    }

    /// The first pass over one declaration.
    fn collect_decl_info(&mut self, decl: &Decl, prefix: &String)
        ensures
            final(self).info() == info_decl(old(self).info(), *decl, prefix@),
            final(self).output == old(self).output,
            final(self).indent == old(self).indent,
        decreases decl, 2nat,
    {
        match decl {
            Decl::FunDef { name, params, .. } => {
                if params.len() == 0 && !crate::text::str_is(name.as_str(), "main") {
                    self.add_zero_arg(name, prefix);
                }
            },
            Decl::FunDefMatch { name, params, return_type, .. } => {
                if params.len() == 0 && !crate::text::str_is(name.as_str(), "main") {
                    let has_arrow_params = match return_type {
                        Some(Type::Arrow(_, _)) => true,
                        _ => false,
                    };
                    if !has_arrow_params {
                        self.add_zero_arg(name, prefix);
                    }
                }
            },
            Decl::InductiveDef { name, .. } => {
                let ghost v0 = self.inductive_names@;
                self.inductive_names.push(copy_string(name));
                proof {
                    crate::resolver::lemma_views_push(v0, self.inductive_names@.last());
                    assert(self.inductive_names@ =~= v0.push(self.inductive_names@.last()));
                }
                assert(self.info() =~= info_decl(old(self).info(), *decl, prefix@));
            },
            Decl::StructDef { name, fields } => {
                let mut names: Vec<String> = Vec::new();
                let mut i: usize = 0;
                while i < fields.len()
                    invariant
                        i <= fields@.len(),
                        views(names@) == field_names_of(fields@.subrange(0, i as int)),
                    decreases fields.len() - i,
                {
                    let ghost n0 = names@;
                    let n = copy_string(&fields[i].0);
                    proof {
                        crate::resolver::lemma_views_push(names@, n);
                    }
                    names.push(n);
                    assert(field_names_of(fields@.subrange(0, i + 1)) =~= field_names_of(fields@.subrange(0, i as int)).push(fields@[i as int].0@));
                    i += 1;
                }
                assert(fields@.subrange(0, i as int) =~= fields@);
                let ghost e0 = self.struct_fields@;
                self.struct_fields.push((copy_string(name), names));
                assert(entries_view(self.struct_fields@) =~= entries_view(e0).push((name@, field_names_of(fields@))));
                assert(self.info() =~= info_decl(old(self).info(), *decl, prefix@));
            },
            Decl::Namespace { name, decls: inner } => {
                let ghost v0 = self.namespace_names@;
                self.namespace_names.push(copy_string(name));
                assert(views(self.namespace_names@) =~= views(v0).push(name@));
                let members = member_list(inner);
                let ghost e0 = self.namespace_members@;
                self.namespace_members.push((copy_string(name), members));
                assert(entries_view(self.namespace_members@) =~= entries_view(e0).push((name@, member_names(inner@))));
                let new_prefix = if prefix.as_str().unicode_len() > 0 {
                    let mut q = copy_string(prefix);
                    push_char(&mut q, '.');
                    q.append(name.as_str());
                    q
                } else {
                    copy_string(name)
                };
                assert(new_prefix@ =~= qualify(prefix@, name@));
                assert(decreases_to!(*decl => (*decl)->Namespace_decls));
                self.collect_all_info(inner, &new_prefix);
            },
            _ => {},
        }
    }

    /// Both passes over a list of declarations under `prefix`.
    fn collect_all_info(&mut self, decls: &Vec<Decl>, prefix: &String)
        ensures
            final(self).info() == info_collect(old(self).info(), decls@, prefix@),
            final(self).output == old(self).output,
            final(self).indent == old(self).indent,
        decreases decls, 1nat,
    {
        let mut i: usize = 0;
        while i < decls.len()
            invariant
                i <= decls@.len(),
                self.info() == info_decls(old(self).info(), decls@.subrange(0, i as int), prefix@),
                self.output == old(self).output,
                self.indent == old(self).indent,
            decreases decls.len() - i,
        {
            proof {
                assert(decreases_to!(*decls => decls[i as int]));
                assert(decls@.subrange(0, i + 1).subrange(0, i as int) =~= decls@.subrange(0, i as int));
            }
            self.collect_decl_info(&decls[i], prefix);
            i += 1;
        }
        assert(decls@.subrange(0, i as int) =~= decls@);
        let ghost mid = self.info();
        let mut k: usize = 0;
        while k < decls.len()
            invariant
                k <= decls@.len(),
                self.info() == (GenInfo { opened: mid.opened + opens_of(decls@.subrange(0, k as int)), ..mid }),
                self.output == old(self).output,
                self.indent == old(self).indent,
            decreases decls.len() - k,
        {
            let ghost o0 = self.opened_namespaces@;
            assert(decls@.subrange(0, k + 1).drop_last() =~= decls@.subrange(0, k as int));
            match &decls[k] {
                Decl::Import { path } => {
                    if path.segments.len() > 0 {
                        let last = &path.segments[path.segments.len() - 1];
                        if last.as_str().unicode_len() > 0 {
                            self.opened_namespaces.push(copy_string(last));
                        }
                    }
                },
                Decl::Open { path } => {
                    if path.segments.len() == 1 {
                        self.opened_namespaces.push(copy_string(&path.segments[0]));
                    } else {
                        let mut joined = String::new();
                        crate::ast::push_joined(&mut joined, &path.segments, '.');
                        self.opened_namespaces.push(joined);
                    }
                },
                _ => {},
            }
            let ghost step = opens_of(decls@.subrange(0, k + 1)).subrange(opens_of(decls@.subrange(0, k as int)).len() as int, opens_of(decls@.subrange(0, k + 1)).len() as int);
            assert(opens_of(decls@.subrange(0, k + 1)) =~= opens_of(decls@.subrange(0, k as int)) + step);
            assert(views(self.opened_namespaces@) =~= views(o0) + step);
            assert(self.info() =~= (GenInfo { opened: mid.opened + opens_of(decls@.subrange(0, k + 1)), ..mid }));
            k += 1;
        }
        assert(decls@.subrange(0, k as int) =~= decls@);
    }
}

/// The names of the definitions, types and structures among `ds`.
fn member_list(ds: &Vec<Decl>) -> (r: Vec<String>)
    ensures
        views(r@) == member_names(ds@),
{
    let mut r: Vec<String> = Vec::new();
    let mut i: usize = 0;
    while i < ds.len()
        invariant
            i <= ds@.len(),
            views(r@) == member_names(ds@.subrange(0, i as int)),
        decreases ds.len() - i,
    {
        let ghost r0 = r@;
        assert(ds@.subrange(0, i + 1).drop_last() =~= ds@.subrange(0, i as int));
        match &ds[i] {
            Decl::FunDef { name, .. } | Decl::FunDefMatch { name, .. } | Decl::InductiveDef { name, .. } | Decl::StructDef { name, .. } => {
                r.push(copy_string(name));
            },
            _ => {},
        }
        assert(views(r@) =~= member_names(ds@.subrange(0, i + 1)));
        i += 1;
    }
    assert(ds@.subrange(0, i as int) =~= ds@);
    r
}

impl CodeGen {
    /// The first opened namespace that has `name` as a member.
    fn opened_owner(&self, name: &String) -> (r: Option<usize>)
        ensures
            match opened_owner(self.info(), self.info().opened, name@) {
                Some(ns) => r matches Some(i) && i < self.opened_namespaces@.len() && self.opened_namespaces@[i as int]@ == ns,
                None => r is None,
            },
    {
        let ghost info = self.info();
        let mut i: usize = 0;
        assert(info.opened.subrange(0, info.opened.len() as int) =~= info.opened);
        while i < self.opened_namespaces.len()
            invariant
                i <= self.opened_namespaces@.len(),
                info == self.info(),
                info.opened.len() == self.opened_namespaces@.len(),
                opened_owner(info, info.opened, name@) == opened_owner(info, info.opened.subrange(i as int, info.opened.len() as int), name@),
            decreases self.opened_namespaces.len() - i,
        {
            let ghost rest = info.opened.subrange(i as int, info.opened.len() as int);
            assert(rest[0] == self.opened_namespaces@[i as int]@);
            assert(rest.drop_first() =~= info.opened.subrange(i + 1, info.opened.len() as int));
            let ns = &self.opened_namespaces[i];
            match latest_index(&self.namespace_members, ns.as_str()) {
                Some(k) => {
                    if contains_name(&self.namespace_members[k].1, name.as_str()) {
                        return Some(i);
                    }
                },
                None => {},
            }
            i += 1;
        }
        None
    }

    /// The Rust form of a variable occurrence.
    fn translate_var(&self, name: &String) -> (r: String)
        ensures
            r@ == var_code(self.info(), name@),
    {
        let ghost info = self.info();
        let chars = chars_of(name.as_str());
        proof {
            crate::resolver::lemma_last_dot(chars@);
        }
        let dot = crate::resolver::find_last_dot(&chars);
        match dot {
            Some(d) => {
                let total = chars.len();
                assert(d < total);
                let obj = crate::text::string_from_prefix(&chars, d);
                assert(obj@ =~= name@.subrange(0, d as int));
                let field = suffix_string(&chars, d + 1);
                match crate::resolver::parse_usize_from(&chars, d + 1) {
                    Some(idx) => {
                        let rust_idx: usize = if idx >= 1 { idx - 1 } else { 0 };
                        let mut out = String::new();
                        push_snake(&mut out, obj.as_str());
                        push_char(&mut out, '.');
                        let n: u64 = rust_idx as u64;
                        assert(n as nat == rust_idx as nat);
                        push_decimal(&mut out, n);
                        proof {
                            assert(last_dot(name@) == Some(d as int));
                            assert(chars@.subrange(d + 1, chars@.len() as int) == name@.subrange(d + 1, name@.len() as int));
                            let i2 = crate::lexer::digits_value(unsigned_digits(name@.subrange(d + 1, name@.len() as int)));
                            assert(idx as nat == i2);
                            assert(out@ =~= snake(name@.subrange(0, d as int)) + seq!['.'] + decimal(if i2 >= 1 { (i2 - 1) as nat } else { 0 }));
                        }
                        return out;
                    },
                    None => {},
                }
                if contains_name(&self.inductive_names, obj.as_str()) {
                    let mut out = copy_string(&obj);
                    out.append("::");
                    push_pascal(&mut out, field.as_str());
                    return out;
                }
                if contains_name(&self.namespace_names, obj.as_str()) {
                    let mut out = String::new();
                    push_snake(&mut out, obj.as_str());
                    out.append("::");
                    push_snake(&mut out, field.as_str());
                    if contains_name(&self.zero_arg_fns, name.as_str()) {
                        out.append("()");
                    }
                    return out;
                }
            },
            None => {},
        }
        if crate::text::str_is(name.as_str(), "List.nil") {
            let mut out = String::new();
            out.append("vec![]");
            return out;
        }
        if crate::text::str_is(name.as_str(), "Option.none") {
            let mut out = String::new();
            out.append("None");
            return out;
        }
        let has_dot = contains_char(&chars, '.');
        if !has_dot {
            match self.opened_owner(name) {
                Some(i) => {
                    let ns = &self.opened_namespaces[i];
                    let mut out = String::new();
                    push_snake(&mut out, ns.as_str());
                    out.append("::");
                    push_snake(&mut out, name.as_str());
                    let mut qualified = copy_string(ns);
                    push_char(&mut qualified, '.');
                    qualified.append(name.as_str());
                    assert(qualified@ =~= dotted(ns@, name@));
                    if contains_name(&self.zero_arg_fns, qualified.as_str()) || contains_name(&self.zero_arg_fns, name.as_str()) {
                        out.append("()");
                    }
                    return out;
                },
                None => {},
            }
        }
        let mut out = String::new();
        push_snake(&mut out, name.as_str());
        if contains_name(&self.zero_arg_fns, name.as_str()) {
            out.append("()");
        }
        out
    }
}

/// Whether `v` holds `c`.
fn contains_char(v: &Vec<char>, c: char) -> (r: bool)
    ensures
        r == v@.contains(c),
{
    let mut i: usize = 0;
    while i < v.len()
        invariant
            i <= v@.len(),
            forall|j: int| 0 <= j < i ==> v@[j] != c,
        decreases v.len() - i,
    {
        if v[i] == c {
            return true;
        }
        i += 1;
    }
    false
}

// ---------------------------------------------------------------------------
// Expressions
// ---------------------------------------------------------------------------

/// The number of arguments a curried application `f a1 ... an` has.
pub open spec fn spine_len(e: Expr) -> nat
    decreases e,
{
    match e {
        Expr::FunApp { func, .. } => spine_len(*func) + 1,
        _ => 0,
    }
}

/// The function a curried application applies.
pub open spec fn spine_base(e: Expr) -> Expr
    decreases e,
{
    match e {
        Expr::FunApp { func, .. } => spine_base(*func),
        _ => e,
    }
}

/// The `i`-th argument (from 0) of a curried application.
pub open spec fn spine_arg(e: Expr, i: int) -> Expr
    decreases e,
{
    match e {
        Expr::FunApp { func, arg } => if i == spine_len(*func) {
            *arg
        } else {
            spine_arg(*func, i)
        },
        _ => e,
    }
}

/// Expressions printed without parentheses.
pub open spec fn is_atom(e: Expr) -> bool {
    e is IntLit || e is StringLit || e is BoolLit || e is Var || e is Tuple
}

/// The code `code` of the left side `lhs` of a subtraction, which becomes
/// the receiver of `saturating_sub`: parenthesized unless it is an atom or
/// parenthesized already, so that the subtraction applies to all of it.
pub open spec fn sub_lhs_code(lhs: Expr, code: Seq<char>) -> Seq<char> {
    if is_atom(lhs) || lhs is Paren {
        code
    } else {
        "("@ + code + ")"@
    }
}

/// Whether `t` contains `::`.
pub open spec fn has_path_sep(t: Seq<char>) -> bool {
    exists|i: int| 0 <= i < t.len() - 1 && t[i] == ':' && #[trigger] t[i + 1] == ':'
}

/// A name `T.m` whose `T` is a known structure.
pub struct StructMember {
    pub owner: Seq<char>,
    pub member: Seq<char>,
    pub fields: Seq<Seq<char>>,
}

/// The structure a `T.mk` or `T.field` name refers to, split at its first dot.
pub open spec fn struct_member(info: GenInfo, name: Seq<char>) -> Option<StructMember> {
    match first_dot(name) {
        Some(d) => match latest(info.structs, name.subrange(0, d)) {
            Some(fields) => Some(
                StructMember {
                    owner: name.subrange(0, d),
                    member: name.subrange(d + 1, name.len() as int),
                    fields,
                },
            ),
            None => None,
        },
        None => None,
    }
}

/// The snake-cased names of lambda parameters.
pub open spec fn lambda_param_names(ps: Seq<(String, Option<Type>)>) -> Seq<Seq<char>> {
    ps.map_values(|p: (String, Option<Type>)| snake(p.0@))
}

/// The template of `format!` for an interpolated string.
pub open spec fn interp_template(ps: Seq<StringInterpPart>) -> Seq<char>
    decreases ps.len(),
{
    if ps.len() == 0 {
        seq![]
    } else {
        interp_template(ps.drop_last()) + match ps.last() {
            StringInterpPart::Literal(s) => template_text(s@),
            StringInterpPart::Expr(_) => "{}"@,
        }
    }
}

/// The Rust code of an expression at indentation level `ind`.
pub open spec fn expr_code(info: GenInfo, e: Expr, ind: nat) -> Seq<char>
    decreases e, 4nat,
{
    match e {
        Expr::IntLit(n) => decimal(n as nat),
        Expr::StringLit(s) => "String::from(\""@ + escape_text(s@) + "\")"@,
        Expr::BoolLit(b) => if b {
            "true"@
        } else {
            "false"@
        },
        Expr::Var(name, _) => var_code(info, name@),
        Expr::BinOp { op, lhs, rhs } => if op is Sub {
            sub_lhs_code(*lhs, expr_code(info, *lhs, ind)) + ".saturating_sub("@ + expr_code(
                info,
                *rhs,
                ind,
            ) + ")"@
        } else {
            expr_code(info, *lhs, ind) + " "@ + binop_text(op) + " "@ + expr_code(info, *rhs, ind)
        },
        Expr::UnaryOp { op, operand } => (if op is Not {
            "!"@
        } else {
            "-"@
        }) + expr_code(info, *operand, ind),
        Expr::FunApp { .. } => app_code(info, e, ind),
        Expr::If { cond, then_branch, else_branch } => "if "@ + expr_code(info, *cond, ind) + " { "@
            + expr_code(info, *then_branch, ind) + " } else { "@ + expr_code(info, *else_branch, ind)
            + " }"@,
        Expr::Let { name, value, body, .. } => "{ let "@ + snake(name@) + " = "@ + expr_code(
            info,
            *value,
            ind,
        ) + "; "@ + expr_code(info, *body, ind) + " }"@,
        Expr::Match { scrutinee, arms } => "match "@ + expr_code(info, *scrutinee, ind) + " {\n"@
            + arms_code(info, arms@, ind + 1) + indent_text(ind) + "}"@,
        Expr::Do(stmts) => do_code(info, stmts@, ind),
        Expr::Lambda { params, body } => "|"@ + join_text(lambda_param_names(params@), ", "@) + "| "@
            + expr_code(info, *body, ind),
        Expr::Paren(inner) => if is_atom(*inner) {
            expr_code(info, *inner, ind)
        } else {
            "("@ + expr_code(info, *inner, ind) + ")"@
        },
        Expr::Tuple(elems) => "("@ + list_code(info, elems@, ind) + ")"@,
        Expr::StringInterpolation(parts) => "format!(\""@ + interp_template(parts@) + "\""@
            + interp_args(info, parts@, ind) + ")"@,
    }
}

/// The code of a curried application.
pub open spec fn app_code(info: GenInfo, e: Expr, ind: nat) -> Seq<char>
    decreases e, 3nat,
{
    let a0 = spine_arg(e, 0);
    let c0 = arg_code(info, e, 0, ind);
    match spine_base(e) {
        Expr::Var(name, _) => if name@ == "IO.println"@ {
            "println!(\"{}\", "@ + c0 + ")"@
        } else if name@ == "toString"@ {
            c0 + if a0 is StringLit || a0 is StringInterpolation {
                seq![]
            } else {
                ".to_string()"@
            }
        } else if name@ == "List.nil"@ {
            "vec![]"@
        } else if name@ == "List.cons"@ && spine_len(e) >= 2 {
            "{ let mut __v = "@ + arg_code(info, e, 1, ind) + ".clone(); __v.insert(0, "@ + c0
                + "); __v }"@
        } else if name@ == "Option.none"@ {
            "None"@
        } else if name@ == "Option.some"@ {
            "Some("@ + c0 + ")"@
        } else {
            named_call_code(info, e, name@, ind)
        },
        _ => base_code(info, e, ind) + "("@ + args_code(info, e, ind) + ")"@,
    }
}

/// The code of an application of a name other than a builtin: a structure
/// built or read, a constructor, or a call.
pub open spec fn named_call_code(info: GenInfo, e: Expr, name: Seq<char>, ind: nat) -> Seq<char>
    decreases e, 2nat,
{
    let all = args_code(info, e, ind);
    let sm = struct_member(info, name);
    if sm is Some && sm->0.member == "mk"@ {
        sm->0.owner + " { "@ + mk_code(info, sm->0.fields, e, ind) + " }"@
    } else if sm is Some && sm->0.fields.contains(sm->0.member) {
        arg_code(info, e, 0, ind) + "."@ + sm->0.member
    } else if has_path_sep(var_code(info, name)) {
        var_code(info, name) + if !(spine_arg(e, 0) matches Expr::Var(v, _) && v@ == "()"@) {
            "("@ + all + ")"@
        } else {
            seq![]
        }
    } else {
        var_code(info, name) + "("@ + all + ")"@
    }
}

/// The code of the function a curried application applies.
pub open spec fn base_code(info: GenInfo, e: Expr, ind: nat) -> Seq<char>
    decreases e, 1nat,
{
    match e {
        Expr::FunApp { func, .. } => if *func is FunApp {
            base_code(info, *func, ind)
        } else {
            expr_code(info, *func, ind)
        },
        _ => seq![],
    }
}

/// The code of the `i`-th argument of a curried application.
pub open spec fn arg_code(info: GenInfo, e: Expr, i: int, ind: nat) -> Seq<char>
    decreases e, 1nat,
{
    match e {
        Expr::FunApp { func, arg } => if i == spine_len(*func) {
            expr_code(info, *arg, ind)
        } else {
            arg_code(info, *func, i, ind)
        },
        _ => seq![],
    }
}

/// The codes of all arguments of a curried application, separated by `, `.
pub open spec fn args_code(info: GenInfo, e: Expr, ind: nat) -> Seq<char>
    decreases e, 1nat,
{
    match e {
        Expr::FunApp { func, arg } => (if *func is FunApp {
            args_code(info, *func, ind) + ", "@
        } else {
            seq![]
        }) + expr_code(info, *arg, ind),
        _ => seq![],
    }
}

/// `f0: a0, f1: a1, ...` for the fields and arguments of `T.mk a0 a1 ...`,
/// as far as both go.
pub open spec fn mk_code(info: GenInfo, fields: Seq<Seq<char>>, e: Expr, ind: nat) -> Seq<char>
    decreases e, 1nat,
{
    match e {
        Expr::FunApp { func, arg } => {
            let k = spine_len(*func);
            (if *func is FunApp {
                mk_code(info, fields, *func, ind)
            } else {
                seq![]
            }) + if k < fields.len() {
                (if k > 0 {
                    ", "@
                } else {
                    seq![]
                }) + fields[k as int] + ": "@ + expr_code(info, *arg, ind)
            } else {
                seq![]
            }
        },
        _ => seq![],
    }
}

/// The arms of a `match`, each on its own line at level `ind`.
pub open spec fn arms_code(info: GenInfo, arms: Seq<MatchArm>, ind: nat) -> Seq<char>
    decreases arms, 0nat,
{
    if arms.len() == 0 {
        seq![]
    } else {
        let a = arms[arms.len() - 1];
        arms_code(info, arms.subrange(0, arms.len() - 1), ind) + indent_text(ind) + pattern_code(
            a.pattern,
        ) + " => "@ + expr_code(info, a.body, ind) + ",\n"@
    }
}

/// The statements of a `do` block, each on its own line at level `ind`.
pub open spec fn do_code(info: GenInfo, stmts: Seq<DoStatement>, ind: nat) -> Seq<char>
    decreases stmts, 0nat,
{
    if stmts.len() == 0 {
        seq![]
    } else {
        do_code(info, stmts.subrange(0, stmts.len() - 1), ind) + indent_text(ind) + match stmts[stmts.len() - 1] {
            DoStatement::Expr(e) => expr_code(info, e, ind),
            DoStatement::Let(n, v) => "let "@ + snake(n@) + " = "@ + expr_code(info, v, ind),
        } + ";\n"@
    }
}

/// The codes of expressions separated by `, `.
pub open spec fn list_code(info: GenInfo, es: Seq<Expr>, ind: nat) -> Seq<char>
    decreases es, 0nat,
{
    if es.len() == 0 {
        seq![]
    } else if es.len() == 1 {
        expr_code(info, es[0], ind)
    } else {
        list_code(info, es.subrange(0, es.len() - 1), ind) + ", "@ + expr_code(info, es[es.len() - 1], ind)
    }
}

/// `, e` for each interpolated expression.
pub open spec fn interp_args(info: GenInfo, ps: Seq<StringInterpPart>, ind: nat) -> Seq<char>
    decreases ps, 0nat,
{
    if ps.len() == 0 {
        seq![]
    } else {
        interp_args(info, ps.subrange(0, ps.len() - 1), ind) + match ps[ps.len() - 1] {
            StringInterpPart::Expr(e) => ", "@ + expr_code(info, e, ind),
            StringInterpPart::Literal(_) => seq![],
        }
    }
}

impl CodeGen {
    /// Appends the current indentation.
    fn emit_indent(&mut self)
        ensures
            final(self).output@ == old(self).output@ + indent_text(old(self).level()),
            final(self).indent == old(self).indent,
            final(self).info() == old(self).info(),
    {
        let mut i: usize = 0;
        while i < self.indent.len()
            invariant
                i <= self.indent@.len(),
                self.indent == old(self).indent,
                self.info() == old(self).info(),
                self.output@ == old(self).output@ + indent_text(i as nat),
            decreases self.indent.len() - i,
        {
            self.output.append("    ");
            assert(self.output@ =~= old(self).output@ + indent_text((i + 1) as nat));
            i += 1;
        }
    }

    /// Appends the indentation, then `s`.
    fn emit_str(&mut self, s: &str)
        ensures
            final(self).output@ == old(self).output@ + indent_text(old(self).level()) + s@,
            final(self).indent == old(self).indent,
            final(self).info() == old(self).info(),
    {
        self.emit_indent();
        self.output.append(s);
    }

    /// Appends the indentation, `s` and a line break.
    fn emit_line(&mut self, s: &str)
        ensures
            final(self).output@ == old(self).output@ + indent_text(old(self).level()) + s@ + "\n"@,
            final(self).indent == old(self).indent,
            final(self).info() == old(self).info(),
    {
        self.emit_indent();
        self.output.append(s);
        self.output.append("\n");
    }

    /// Appends the code of a pattern.
    fn gen_pattern(&mut self, pat: &Pattern)
        ensures
            final(self).output@ == old(self).output@ + pattern_code(*pat),
            final(self).indent == old(self).indent,
            final(self).info() == old(self).info(),
        decreases pat,
    {
        match pat {
            Pattern::IntLit(n) => push_decimal(&mut self.output, *n),
            Pattern::Var(name) => push_snake(&mut self.output, name.as_str()),
            Pattern::Constructor(name, args) => {
                let mut rust_name = String::new();
                push_ctor(&mut rust_name, name);
                let tv = chars_of(rust_name.as_str());
                if crate::text::str_is(rust_name.as_str(), "None") || crate::text::str_is(name.as_str(), "Option.none") {
                    self.output.append("None");
                    return;
                }
                let starts_some = tv.len() >= 4 && tv[0] == 'S' && tv[1] == 'o' && tv[2] == 'm' && tv[3] == 'e';
                proof {
                    reveal_strlit("Some");
                    if starts_some {
                        assert(tv@.subrange(0, 4) =~= "Some"@);
                    } else if tv@.len() >= 4 && tv@.subrange(0, 4) == "Some"@ {
                        assert(tv@.subrange(0, 4)[0] == 'S');
                        assert(tv@.subrange(0, 4)[1] == 'o');
                        assert(tv@.subrange(0, 4)[2] == 'm');
                        assert(tv@.subrange(0, 4)[3] == 'e');
                    }
                }
                if starts_some || crate::text::str_is(name.as_str(), "Option.some") {
                    self.output.append("Some");
                } else {
                    self.output.append(rust_name.as_str());
                }
                let ghost before = self.output@;
                if args.len() > 0 {
                    self.output.append("(");
                    assert(decreases_to!(*pat => (*pat)->Constructor_1));
                    self.gen_pattern_list(args);
                    self.output.append(")");
                }
            },
            Pattern::Wildcard => self.output.append("_"),
            Pattern::Successor(name, _) => push_snake(&mut self.output, name.as_str()),
            Pattern::Tuple(pats) => {
                self.output.append("(");
                assert(decreases_to!(*pat => (*pat)->Tuple_0));
                self.gen_pattern_list(pats);
                self.output.append(")");
            },
        }
    }

    /// Appends the codes of patterns, separated by `, `.
    fn gen_pattern_list(&mut self, pats: &Vec<Pattern>)
        ensures
            final(self).output@ == old(self).output@ + join_text(patterns_code(pats@), ", "@),
            final(self).indent == old(self).indent,
            final(self).info() == old(self).info(),
        decreases pats,
    {
        let mut i: usize = 0;
        while i < pats.len()
            invariant
                i <= pats@.len(),
                self.indent == old(self).indent,
                self.info() == old(self).info(),
                self.output@ == old(self).output@ + join_text(patterns_code(pats@.subrange(0, i as int)), ", "@),
            decreases pats.len() - i,
        {
            proof {
                assert(decreases_to!(*pats => pats[i as int]));
                assert(pats@.subrange(0, i + 1).subrange(0, i as int) =~= pats@.subrange(0, i as int));
                lemma_join_push(patterns_code(pats@.subrange(0, i as int)), ", "@, pattern_code(pats@[i as int]));
            }
            if i > 0 {
                self.output.append(", ");
            }
            self.gen_pattern(&pats[i]);
            i += 1;
        }
        assert(pats@.subrange(0, i as int) =~= pats@);
    }
}

/// The function a curried application applies.
fn spine_base_of(e: &Expr) -> (r: &Expr)
    ensures
        *r == spine_base(*e),
    decreases e,
{
    match e {
        Expr::FunApp { func, .. } => spine_base_of(func),
        _ => e,
    }
}

/// Whether a curried application has exactly `i` arguments.
fn spine_len_is(e: &Expr, i: usize) -> (r: bool)
    ensures
        r == (spine_len(*e) == i),
    decreases e,
{
    match e {
        Expr::FunApp { func, .. } => i > 0 && spine_len_is(func, i - 1),
        _ => i == 0,
    }
}

/// The `i`-th argument of a curried application.
fn spine_arg_of(e: &Expr, i: usize) -> (r: &Expr)
    ensures
        *r == spine_arg(*e, i as int),
    decreases e,
{
    match e {
        Expr::FunApp { func, arg } => {
            if spine_len_is(func, i) {
                arg
            } else {
                spine_arg_of(func, i)
            }
        },
        _ => e,
    }
}

/// Whether `t` contains `::`.
fn has_path_sep_exec(t: &String) -> (r: bool)
    ensures
        r == has_path_sep(t@),
{
    let v = chars_of(t.as_str());
    let mut i: usize = 0;
    while i < v.len()
        invariant
            v@ == t@,
            i <= v@.len(),
            forall|j: int| 0 <= j < i && j + 1 < v@.len() ==> !(v@[j] == ':' && #[trigger] v@[j + 1] == ':'),
        decreases v.len() - i,
    {
        if i + 1 < v.len() && v[i] == ':' && v[i + 1] == ':' {
            assert(t@[i + 1] == ':');
            return true;
        }
        i += 1;
    }
    assert forall|j: int| 0 <= j < t@.len() - 1 && t@[j] == ':' implies !(#[trigger] t@[j + 1] == ':') by {
        assert(j < i || j + 1 >= v@.len());
    }
    false
}

/// A copy of a list of strings.
fn copy_strings(v: &Vec<String>) -> (r: Vec<String>)
    ensures
        views(r@) == views(v@),
{
    let mut r: Vec<String> = Vec::new();
    let mut i: usize = 0;
    while i < v.len()
        invariant
            i <= v@.len(),
            views(r@) == views(v@.subrange(0, i as int)),
        decreases v.len() - i,
    {
        let s = copy_string(&v[i]);
        proof {
            crate::resolver::lemma_views_push(r@, s);
        }
        r.push(s);
        assert(views(v@.subrange(0, i + 1)) =~= views(v@.subrange(0, i as int)).push(v@[i as int]@));
        i += 1;
    }
    assert(v@.subrange(0, i as int) =~= v@);
    r
}

impl CodeGen {
    /// Nothing but the output changed.
    closed spec fn frame(&self, old: &CodeGen) -> bool {
        &&& self.indent@ == old.indent@
        &&& self.info() == old.info()
    }

    /// Appends the code of an expression.
    fn gen_expr(&mut self, expr: &Expr)
        ensures
            final(self).output@ == old(self).output@ + expr_code(old(self).info(), *expr, old(self).level()),
            final(self).frame(old(self)),
        decreases expr, 4nat,
    {
        let ghost info = self.info();
        let ghost ind = self.level();
        match expr {
            Expr::IntLit(n) => push_decimal(&mut self.output, *n),
            Expr::StringLit(s) => {
                self.output.append("String::from(\"");
                push_escaped(&mut self.output, s.as_str());
                self.output.append("\")");
            },
            Expr::BoolLit(b) => {
                if *b {
                    self.output.append("true");
                } else {
                    self.output.append("false");
                }
            },
            Expr::Var(name, _) => {
                let t = self.translate_var(name);
                self.output.append(t.as_str());
            },
            Expr::BinOp { op, lhs, rhs } => {
                if matches!(op, BinOp::Sub) {
                    let wrap = !(is_atom_expr(lhs) || matches!(**lhs, Expr::Paren(_)));
                    if wrap {
                        self.output.append("(");
                    }
                    self.gen_expr(lhs);
                    if wrap {
                        self.output.append(")");
                    }
                    self.output.append(".saturating_sub(");
                    self.gen_expr(rhs);
                    self.output.append(")");
                } else {
                    self.gen_expr(lhs);
                    self.output.append(" ");
                    self.output.append(binop_to_rust(op));
                    self.output.append(" ");
                    self.gen_expr(rhs);
                }
            },
            Expr::UnaryOp { op, operand } => {
                match op {
                    UnaryOp::Not => self.output.append("!"),
                    UnaryOp::Neg => self.output.append("-"),
                }
                self.gen_expr(operand);
            },
            Expr::FunApp { .. } => self.gen_fun_app(expr),
            Expr::If { cond, then_branch, else_branch } => {
                self.output.append("if ");
                self.gen_expr(cond);
                self.output.append(" { ");
                self.gen_expr(then_branch);
                self.output.append(" } else { ");
                self.gen_expr(else_branch);
                self.output.append(" }");
            },
            Expr::Let { name, value, body, .. } => {
                self.output.append("{ let ");
                push_snake(&mut self.output, name.as_str());
                self.output.append(" = ");
                self.gen_expr(value);
                self.output.append("; ");
                self.gen_expr(body);
                self.output.append(" }");
            },
            Expr::Match { .. } => self.gen_match(expr),
            Expr::Do(stmts) => {
                assert(decreases_to!(*expr => (*expr)->Do_0));
                self.gen_do_stmts(stmts);
            },
            Expr::Lambda { .. } => self.gen_lambda(expr),
            Expr::Paren(inner) => {
                if is_atom_expr(inner) {
                    self.gen_expr(inner);
                } else {
                    self.output.append("(");
                    self.gen_expr(inner);
                    self.output.append(")");
                }
            },
            Expr::Tuple(_) => self.gen_tuple(expr),
            Expr::StringInterpolation(_) => self.gen_interpolation(expr),
        }
    }

    fn gen_match(&mut self, expr: &Expr)
        requires
            *expr is Match,
        ensures
            final(self).output@ == old(self).output@ + expr_code(old(self).info(), *expr, old(self).level()),
            final(self).frame(old(self)),
        decreases expr, 3nat,
    {
        let ghost info = self.info();
        let ghost ind = self.level();
        match expr {
            Expr::Match { scrutinee, arms } => {
                self.output.append("match ");
                self.gen_expr(scrutinee);
                self.output.append(" {\n");
                let ghost start = self.output@;
                let ghost ind0 = self.indent@;
                self.indent.push(0);
                let mut i: usize = 0;
                while i < arms.len()
                    invariant
                        i <= arms@.len(),
                        *expr == (Expr::Match { scrutinee: *scrutinee, arms: *arms }),
                        self.indent@ == ind0.push(0),
                        self.info() == info,
                        self.output@ == start + arms_code(info, arms@.subrange(0, i as int), ind + 1),
                        ind0.len() == ind,
                    decreases arms.len() - i,
                {
                    proof {
                        assert(decreases_to!(*expr => (*expr)->arms));
                        assert(decreases_to!(*arms => arms[i as int]));
                        assert(decreases_to!(arms[i as int] => arms[i as int].body));
                        assert(arms@.subrange(0, i + 1).subrange(0, i as int) =~= arms@.subrange(0, i as int));
                    }
                    self.emit_indent();
                    self.gen_pattern(&arms[i].pattern);
                    self.output.append(" => ");
                    self.gen_expr(&arms[i].body);
                    self.output.append(",\n");
                    i += 1;
                }
                assert(arms@.subrange(0, i as int) =~= arms@);
                self.indent.pop();
                assert(self.indent@ =~= ind0);
                self.emit_indent();
                self.output.append("}");
            },
            _ => {},
        }
    }

    fn gen_lambda(&mut self, expr: &Expr)
        requires
            *expr is Lambda,
        ensures
            final(self).output@ == old(self).output@ + expr_code(old(self).info(), *expr, old(self).level()),
            final(self).frame(old(self)),
        decreases expr, 3nat,
    {
        let ghost info = self.info();
        let ghost ind = self.level();
        match expr {
            Expr::Lambda { params, body } => {
                self.output.append("|");
                let ghost start = self.output@;
                let mut i: usize = 0;
                while i < params.len()
                    invariant
                        i <= params@.len(),
                        self.frame(old(self)),
                        self.output@ == start + join_text(lambda_param_names(params@.subrange(0, i as int)), ", "@),
                    decreases params.len() - i,
                {
                    proof {
                        lemma_join_push(lambda_param_names(params@.subrange(0, i as int)), ", "@, snake(params@[i as int].0@));
                        assert(lambda_param_names(params@.subrange(0, i + 1)) =~= lambda_param_names(params@.subrange(0, i as int)).push(snake(params@[i as int].0@)));
                    }
                    if i > 0 {
                        self.output.append(", ");
                    }
                    push_snake(&mut self.output, params[i].0.as_str());
                    i += 1;
                }
                assert(params@.subrange(0, i as int) =~= params@);
                self.output.append("| ");
                self.gen_expr(body);
            },
            _ => {},
        }
    }

    fn gen_tuple(&mut self, expr: &Expr)
        requires
            *expr is Tuple,
        ensures
            final(self).output@ == old(self).output@ + expr_code(old(self).info(), *expr, old(self).level()),
            final(self).frame(old(self)),
        decreases expr, 3nat,
    {
        let ghost info = self.info();
        let ghost ind = self.level();
        match expr {
            Expr::Tuple(elems) => {
                self.output.append("(");
                let ghost start = self.output@;
                let mut i: usize = 0;
                while i < elems.len()
                    invariant
                        i <= elems@.len(),
                        *expr == Expr::Tuple(*elems),
                        self.frame(old(self)),
                        info == old(self).info(),
                        ind == old(self).level(),
                        self.output@ == start + list_code(info, elems@.subrange(0, i as int), ind),
                    decreases elems.len() - i,
                {
                    proof {
                        assert(decreases_to!(*expr => (*expr)->Tuple_0));
                        assert(decreases_to!(*elems => elems[i as int]));
                        assert(elems@.subrange(0, i + 1).subrange(0, i as int) =~= elems@.subrange(0, i as int));
                    }
                    if i > 0 {
                        self.output.append(", ");
                    }
                    self.gen_expr(&elems[i]);
                    proof {
                        if i == 0 {
                            assert(self.output@ =~= start + list_code(info, elems@.subrange(0, 1), ind));
                        }
                    }
                    i += 1;
                }
                assert(elems@.subrange(0, i as int) =~= elems@);
                self.output.append(")");
            },
            _ => {},
        }
    }

    fn gen_interpolation(&mut self, expr: &Expr)
        requires
            *expr is StringInterpolation,
        ensures
            final(self).output@ == old(self).output@ + expr_code(old(self).info(), *expr, old(self).level()),
            final(self).frame(old(self)),
        decreases expr, 3nat,
    {
        let ghost info = self.info();
        let ghost ind = self.level();
        match expr {
            Expr::StringInterpolation(parts) => {
                self.output.append("format!(\"");
                let ghost start = self.output@;
                let mut i: usize = 0;
                while i < parts.len()
                    invariant
                        i <= parts@.len(),
                        self.frame(old(self)),
                        self.output@ == start + interp_template(parts@.subrange(0, i as int)),
                    decreases parts.len() - i,
                {
                    assert(parts@.subrange(0, i + 1).drop_last() =~= parts@.subrange(0, i as int));
                    match &parts[i] {
                        StringInterpPart::Literal(s) => push_template(&mut self.output, s.as_str()),
                        StringInterpPart::Expr(_) => self.output.append("{}"),
                    }
                    assert(self.output@ =~= start + interp_template(parts@.subrange(0, i + 1)));
                    i += 1;
                }
                assert(parts@.subrange(0, i as int) =~= parts@);
                self.output.append("\"");
                let ghost mid = self.output@;
                let mut k: usize = 0;
                while k < parts.len()
                    invariant
                        k <= parts@.len(),
                        *expr == Expr::StringInterpolation(*parts),
                        self.frame(old(self)),
                        info == old(self).info(),
                        ind == old(self).level(),
                        self.output@ == mid + interp_args(info, parts@.subrange(0, k as int), ind),
                    decreases parts.len() - k,
                {
                    proof {
                        assert(decreases_to!(*expr => (*expr)->StringInterpolation_0));
                        assert(decreases_to!(*parts => parts[k as int]));
                        assert(parts@.subrange(0, k + 1).subrange(0, k as int) =~= parts@.subrange(0, k as int));
                    }
                    match &parts[k] {
                        StringInterpPart::Expr(e) => {
                            assert(decreases_to!(parts[k as int] => parts[k as int]->Expr_0));
                            self.output.append(", ");
                            self.gen_expr(e);
                        },
                        StringInterpPart::Literal(_) => {},
                    }
                    k += 1;
                }
                assert(parts@.subrange(0, k as int) =~= parts@);
                self.output.append(")");
            },
            _ => {},
        }
    }

    /// Appends the statements of a `do` block.
    fn gen_do_stmts(&mut self, stmts: &Vec<DoStatement>)
        ensures
            final(self).output@ == old(self).output@ + do_code(old(self).info(), stmts@, old(self).level()),
            final(self).frame(old(self)),
        decreases stmts, 0nat,
    {
        let ghost info = self.info();
        let ghost ind = self.level();
        let mut i: usize = 0;
        while i < stmts.len()
            invariant
                i <= stmts@.len(),
                self.frame(old(self)),
                info == old(self).info(),
                ind == old(self).level(),
                self.output@ == old(self).output@ + do_code(info, stmts@.subrange(0, i as int), ind),
            decreases stmts.len() - i,
        {
            proof {
                assert(decreases_to!(*stmts => stmts[i as int]));
                assert(stmts@.subrange(0, i + 1).subrange(0, i as int) =~= stmts@.subrange(0, i as int));
            }
            match &stmts[i] {
                DoStatement::Expr(e) => {
                    assert(decreases_to!(stmts[i as int] => stmts[i as int]->Expr_0));
                    self.emit_indent();
                    self.gen_expr(e);
                    self.output.append(";\n");
                },
                DoStatement::Let(name, value) => {
                    assert(decreases_to!(stmts[i as int] => stmts[i as int]->Let_1));
                    self.emit_indent();
                    self.output.append("let ");
                    push_snake(&mut self.output, name.as_str());
                    self.output.append(" = ");
                    self.gen_expr(value);
                    self.output.append(";\n");
                },
            }
            i += 1;
        }
        assert(stmts@.subrange(0, i as int) =~= stmts@);
    }

    /// Appends the code of a curried application.
    fn gen_fun_app(&mut self, expr: &Expr)
        requires
            *expr is FunApp,
        ensures
            final(self).output@ == old(self).output@ + app_code(old(self).info(), *expr, old(self).level()),
            final(self).frame(old(self)),
        decreases expr, 3nat,
    {
        let ghost info = self.info();
        let ghost ind = self.level();
        let base = spine_base_of(expr);
        match base {
            Expr::Var(name, _) => {
                if crate::text::str_is(name.as_str(), "IO.println") {
                    self.output.append("println!(\"{}\", ");
                    self.gen_arg(expr, 0);
                    self.output.append(")");
                    return;
                }
                if crate::text::str_is(name.as_str(), "toString") {
                    self.gen_arg(expr, 0);
                    let a0 = spine_arg_of(expr, 0);
                    if !is_string_expr(a0) {
                        self.output.append(".to_string()");
                    }
                    return;
                }
                if crate::text::str_is(name.as_str(), "List.nil") {
                    self.output.append("vec![]");
                    return;
                }
                if crate::text::str_is(name.as_str(), "List.cons") && has_two_args(expr) {
                    self.output.append("{ let mut __v = ");
                    self.gen_arg(expr, 1);
                    self.output.append(".clone(); __v.insert(0, ");
                    self.gen_arg(expr, 0);
                    self.output.append("); __v }");
                    return;
                }
                if crate::text::str_is(name.as_str(), "Option.none") {
                    self.output.append("None");
                    return;
                }
                if crate::text::str_is(name.as_str(), "Option.some") {
                    self.output.append("Some(");
                    self.gen_arg(expr, 0);
                    self.output.append(")");
                    return;
                }
                self.gen_named_call(expr, name);
            },
            _ => {
                self.gen_base(expr);
                self.output.append("(");
                self.gen_args(expr);
                self.output.append(")");
            },
        }
    }

    /// Appends the code of an application of a name other than a builtin.
    #[verifier::rlimit(40)]
    fn gen_named_call(&mut self, expr: &Expr, name: &String)
        requires
            *expr is FunApp,
        ensures
            final(self).output@ == old(self).output@ + named_call_code(old(self).info(), *expr, name@, old(self).level()),
            final(self).frame(old(self)),
        decreases expr, 2nat,
    {
        let v = chars_of(name.as_str());
        proof {
            lemma_first_dot(v@);
        }
        match find_first_dot(&v) {
            Some(d) => {
                let total = v.len();
                assert(d < total);
                let owner_name = crate::text::string_from_prefix(&v, d);
                assert(owner_name@ =~= name@.subrange(0, d as int));
                let method = suffix_string(&v, d + 1);
                match latest_index(&self.struct_fields, owner_name.as_str()) {
                    Some(k) => {
                        let fields = copy_strings(&self.struct_fields[k].1);
                        if crate::text::str_is(method.as_str(), "mk") {
                            self.output.append(owner_name.as_str());
                            self.output.append(" { ");
                            self.gen_mk(expr, &fields);
                            self.output.append(" }");
                            return;
                        }
                        if contains_name(&fields, method.as_str()) {
                            self.gen_arg(expr, 0);
                            self.output.append(".");
                            self.output.append(method.as_str());
                            return;
                        }
                    },
                    None => {},
                }
            },
            None => {},
        }
        let rust_name = self.translate_var(name);
        if has_path_sep_exec(&rust_name) {
            self.output.append(rust_name.as_str());
            let a0 = spine_arg_of(expr, 0);
            let unit_arg = match a0 {
                Expr::Var(v, _) => crate::text::str_is(v.as_str(), "()"),
                _ => false,
            };
            if !unit_arg {
                self.output.append("(");
                self.gen_args(expr);
                self.output.append(")");
            }
            return;
        }
        self.output.append(rust_name.as_str());
        self.output.append("(");
        self.gen_args(expr);
        self.output.append(")");
    }

    /// Appends the code of the function a curried application applies.
    fn gen_base(&mut self, e: &Expr)
        ensures
            final(self).output@ == old(self).output@ + base_code(old(self).info(), *e, old(self).level()),
            final(self).frame(old(self)),
        decreases e, 1nat,
    {
        match e {
            Expr::FunApp { func, .. } => {
                if matches!(**func, Expr::FunApp { .. }) {
                    self.gen_base(func);
                } else {
                    self.gen_expr(func);
                }
            },
            _ => {},
        }
    }

    /// Appends the code of the `i`-th argument of a curried application.
    fn gen_arg(&mut self, e: &Expr, i: usize)
        ensures
            final(self).output@ == old(self).output@ + arg_code(old(self).info(), *e, i as int, old(self).level()),
            final(self).frame(old(self)),
        decreases e, 1nat,
    {
        match e {
            Expr::FunApp { func, arg } => {
                if spine_len_is(func, i) {
                    self.gen_expr(arg);
                } else {
                    self.gen_arg(func, i);
                }
            },
            _ => {},
        }
    }

    /// Appends the codes of all arguments of a curried application.
    fn gen_args(&mut self, e: &Expr)
        ensures
            final(self).output@ == old(self).output@ + args_code(old(self).info(), *e, old(self).level()),
            final(self).frame(old(self)),
        decreases e, 1nat,
    {
        match e {
            Expr::FunApp { func, arg } => {
                if matches!(**func, Expr::FunApp { .. }) {
                    self.gen_args(func);
                    self.output.append(", ");
                }
                self.gen_expr(arg);
            },
            _ => {},
        }
    }

    /// Appends `f0: a0, ...` for a structure's fields and the arguments of
    /// `T.mk`; returns how many fields were used.
    fn gen_mk(&mut self, e: &Expr, fields: &Vec<String>) -> (r: usize)
        ensures
            final(self).output@ == old(self).output@ + mk_code(old(self).info(), views(fields@), *e, old(self).level()),
            final(self).frame(old(self)),
            r as nat == if spine_len(*e) < fields@.len() { spine_len(*e) } else { fields@.len() },
        decreases e, 1nat,
    {
        match e {
            Expr::FunApp { func, arg } => {
                let k = if matches!(**func, Expr::FunApp { .. }) {
                    self.gen_mk(func, fields)
                } else {
                    0
                };
                if k < fields.len() {
                    if k > 0 {
                        self.output.append(", ");
                    }
                    self.output.append(fields[k].as_str());
                    self.output.append(": ");
                    self.gen_expr(arg);
                    k + 1
                } else {
                    k
                }
            },
            _ => 0,
        }
    }
}

/// Expressions printed without parentheses.
fn is_atom_expr(e: &Expr) -> (r: bool)
    ensures
        r == is_atom(*e),
{
    matches!(e, Expr::IntLit(_) | Expr::StringLit(_) | Expr::BoolLit(_) | Expr::Var(_, _) | Expr::Tuple(_))
}

/// Expressions known to produce a `String`.
fn is_string_expr(e: &Expr) -> (r: bool)
    ensures
        r == (*e is StringLit || *e is StringInterpolation),
{
    matches!(e, Expr::StringLit(_) | Expr::StringInterpolation(_))
}

/// Whether a curried application has at least two arguments.
fn has_two_args(e: &Expr) -> (r: bool)
    ensures
        r == (spine_len(*e) >= 2),
{
    proof {
        reveal_with_fuel(spine_len, 2);
    }
    match e {
        Expr::FunApp { func, .. } => matches!(**func, Expr::FunApp { .. }),
        _ => false,
    }
}

// ---------------------------------------------------------------------------
// Declarations
// ---------------------------------------------------------------------------

/// `pub ` inside a namespace, nothing at top level.
pub open spec fn vis(public: bool) -> Seq<char> {
    if public {
        "pub "@
    } else {
        seq![]
    }
}

/// `name: T` for a typed parameter.
pub open spec fn param_code(p: (String, Type)) -> Seq<char> {
    snake(p.0@) + ": "@ + rust_type(p.1)
}

pub open spec fn params_code(ps: Seq<(String, Type)>) -> Seq<Seq<char>> {
    ps.map_values(|p: (String, Type)| param_code(p))
}

/// ` -> T` for a written result type other than `()`.
pub open spec fn ret_code(ret: Option<Type>) -> Seq<char> {
    match ret {
        Some(t) => if t is Unit {
            seq![]
        } else {
            " -> "@ + rust_type(t)
        },
        None => seq![],
    }
}

/// The body of `main`: a `do` block's statements, or one statement.
pub open spec fn do_body_code(info: GenInfo, body: Expr, ind: nat) -> Seq<char> {
    match body {
        Expr::Do(stmts) => do_code(info, stmts@, ind),
        _ => indent_text(ind) + expr_code(info, body, ind) + ";\n"@,
    }
}

/// `fn name(params) -> T {` and a line break.
pub open spec fn fun_header(
    name: Seq<char>,
    params: Seq<(String, Type)>,
    ret: Option<Type>,
    ind: nat,
    public: bool,
) -> Seq<char> {
    indent_text(ind) + vis(public) + "fn "@ + snake(name) + "("@ + join_text(params_code(params), ", "@)
        + ")"@ + ret_code(ret) + " {\n"@
}

/// A definition by an expression.
pub open spec fn fun_def_code(
    info: GenInfo,
    name: Seq<char>,
    params: Seq<(String, Type)>,
    ret: Option<Type>,
    body: Expr,
    ind: nat,
    public: bool,
) -> Seq<char> {
    if name == "main"@ && is_io_unit_type(ret) {
        indent_text(ind) + vis(public) + "fn main()"@ + " {\n"@ + do_body_code(info, body, ind + 1)
            + indent_text(ind) + "}"@ + "\n"@
    } else {
        fun_header(name, params, ret, ind, public) + indent_text(ind + 1) + expr_code(info, body, ind + 1)
            + "\n"@ + indent_text(ind) + "}"@ + "\n"@
    }
}

/// The variable the cases of a pattern-matching definition bind: the first
/// variable (or successor) pattern that opens a case, else `x`.
pub open spec fn match_param_name(cases: Seq<(Vec<Pattern>, Expr)>) -> Seq<char>
    decreases cases.len(),
{
    if cases.len() == 0 {
        "x"@
    } else if cases[0].0@.len() > 0 && cases[0].0@[0] is Var {
        cases[0].0@[0]->Var_0@
    } else if cases[0].0@.len() > 0 && cases[0].0@[0] is Successor {
        cases[0].0@[0]->Successor_0@
    } else {
        match_param_name(cases.drop_first())
    }
}

/// The parts of an arrow type: its parameter types, then its result.
pub open spec fn flatten_arrow(t: Type) -> Seq<Type>
    decreases t,
{
    match t {
        Type::Arrow(l, r) => seq![*l] + flatten_arrow(*r),
        _ => seq![t],
    }
}

/// The parameters (names and Rust types) and the result type of a
/// pattern-matching definition: the arrow of its written type supplies the
/// matched parameters.
pub open spec fn match_signature(params: Seq<(String, Type)>, ret: Option<Type>, mp: Seq<char>) -> (
    Seq<(Seq<char>, Seq<char>)>,
    Option<Seq<char>>,
) {
    if params.len() == 0 {
        let parts = match ret {
            Some(t) => flatten_arrow(t),
            None => seq![],
        };
        if parts.len() >= 2 {
            let ps = parts.drop_last();
            (
                Seq::new(
                    ps.len(),
                    |i: int|
                        if i == ps.len() - 1 {
                            (mp, rust_type(ps[i]))
                        } else {
                            ("x"@ + decimal(i as nat), rust_type(ps[i]))
                        },
                ),
                Some(rust_type(parts.last())),
            )
        } else if parts.len() == 1 {
            (seq![(mp, rust_type(parts[0]))], None)
        } else {
            (seq![], None)
        }
    } else {
        let all = params.map_values(|p: (String, Type)| (p.0@, rust_type(p.1)));
        match ret {
            Some(t) => {
                let parts = flatten_arrow(t);
                if parts.len() >= 2 {
                    (
                        all + parts.drop_last().map_values(|q: Type| (mp, rust_type(q))),
                        Some(rust_type(parts.last())),
                    )
                } else {
                    (all.push((mp, rust_type(t))), Some(rust_type(t)))
                }
            },
            None => (all, None),
        }
    }
}

/// `name: T` with the name in `snake_case`.
pub open spec fn sig_params_code(ps: Seq<(Seq<char>, Seq<char>)>) -> Seq<Seq<char>> {
    ps.map_values(|p: (Seq<char>, Seq<char>)| snake(p.0) + ": "@ + p.1)
}

/// One case of a pattern-matching definition at level `ind`.
pub open spec fn case_code(info: GenInfo, c: (Vec<Pattern>, Expr), ind: nat) -> Seq<char> {
    if c.0@.len() > 0 && c.0@[0] is Successor {
        let sv = snake(c.0@[0]->Successor_0@);
        sv + " => {\n"@ + indent_text(ind + 1) + "let "@ + sv + " = "@ + sv + ".saturating_sub("@
            + decimal(c.0@[0]->Successor_1 as nat) + ");\n"@ + indent_text(ind + 1) + expr_code(
            info,
            c.1,
            ind + 1,
        ) + "\n"@ + indent_text(ind) + "}\n"@
    } else {
        (if c.0@.len() > 0 {
            pattern_code(c.0@[0])
        } else {
            seq![]
        }) + " => "@ + expr_code(info, c.1, ind) + ",\n"@
    }
}

pub open spec fn cases_code(info: GenInfo, cases: Seq<(Vec<Pattern>, Expr)>, ind: nat) -> Seq<char>
    decreases cases.len(),
{
    if cases.len() == 0 {
        seq![]
    } else {
        cases_code(info, cases.drop_last(), ind) + indent_text(ind) + case_code(info, cases.last(), ind)
    }
}

/// ` -> T` for a result type other than `()`.
pub open spec fn sig_ret_code(r: Option<Seq<char>>) -> Seq<char> {
    match r {
        Some(t) => if t != "()"@ {
            " -> "@ + t
        } else {
            seq![]
        },
        None => seq![],
    }
}

/// The header of a pattern-matching definition with signature `sig`.
pub open spec fn match_header(
    name: Seq<char>,
    sig: (Seq<(Seq<char>, Seq<char>)>, Option<Seq<char>>),
    ind: nat,
    public: bool,
) -> Seq<char> {
    indent_text(ind) + vis(public) + "fn "@ + snake(name) + "("@ + join_text(sig_params_code(sig.0), ", "@)
        + ")"@ + sig_ret_code(sig.1) + " {\n"@
}

/// A definition by pattern matching: a function whose body matches its
/// last parameter against the cases.
pub open spec fn match_def_code(
    info: GenInfo,
    name: Seq<char>,
    params: Seq<(String, Type)>,
    ret: Option<Type>,
    cases: Seq<(Vec<Pattern>, Expr)>,
    ind: nat,
    public: bool,
) -> Seq<char> {
    let mp = match_param_name(cases);
    match_header(name, match_signature(params, ret, mp), ind, public) + indent_text(ind + 1) + "match "@
        + snake(mp) + " {\n"@ + cases_code(info, cases, ind + 2) + indent_text(ind + 1) + "}\n"@
        + indent_text(ind) + "}"@ + "\n"@
}

/// The variants of an enum, one per line at level `ind`.
pub open spec fn variants_code(cs: Seq<Constructor>, ind: nat) -> Seq<char>
    decreases cs.len(),
{
    if cs.len() == 0 {
        seq![]
    } else {
        let c = cs.last();
        variants_code(cs.drop_last(), ind) + indent_text(ind) + pascal(c.name@) + if c.fields@.len()
            == 0 {
            ",\n"@
        } else {
            "("@ + join_text(rust_types(c.fields@), ", "@) + "),\n"@
        }
    }
}

pub open spec fn inductive_code(name: Seq<char>, cs: Seq<Constructor>, ind: nat, public: bool) -> Seq<char> {
    indent_text(ind) + "#[derive(Debug, Clone, PartialEq)]"@ + "\n"@ + indent_text(ind) + vis(public)
        + "enum "@ + name + " {"@ + "\n"@ + variants_code(cs, ind + 1) + indent_text(ind) + "}"@
        + "\n"@
}

/// The fields of a struct, one per line at level `ind`.
pub open spec fn fields_code(fs: Seq<(String, Type)>, ind: nat, public: bool) -> Seq<char>
    decreases fs.len(),
{
    if fs.len() == 0 {
        seq![]
    } else {
        fields_code(fs.drop_last(), ind, public) + indent_text(ind) + vis(public) + fs.last().0@ + ": "@
            + rust_type(fs.last().1) + ",\n"@
    }
}

pub open spec fn struct_code(name: Seq<char>, fs: Seq<(String, Type)>, ind: nat, public: bool) -> Seq<char> {
    indent_text(ind) + "#[derive(Debug, Clone, PartialEq)]"@ + "\n"@ + indent_text(ind) + vis(public)
        + "struct "@ + name + " {"@ + "\n"@ + fields_code(fs, ind + 1, public) + indent_text(ind) + "}"@
        + "\n"@
}

/// The code of a declaration at level `ind`; `public` inside a namespace.
pub open spec fn decl_code(info: GenInfo, d: Decl, ind: nat, public: bool) -> Seq<char>
    decreases d, 1nat,
{
    match d {
        Decl::FunDef { name, params, return_type, body } => fun_def_code(
            info,
            name@,
            params@,
            return_type,
            body,
            ind,
            public,
        ),
        Decl::FunDefMatch { name, params, return_type, cases } => match_def_code(
            info,
            name@,
            params@,
            return_type,
            cases@,
            ind,
            public,
        ),
        Decl::InductiveDef { name, constructors } => inductive_code(name@, constructors@, ind, public),
        Decl::StructDef { name, fields } => struct_code(name@, fields@, ind, public),
        Decl::Namespace { name, decls } => indent_text(ind) + "mod "@ + snake(name@) + " {"@ + "\n"@
            + members_code(info, decls@, ind + 1) + indent_text(ind) + "}"@ + "\n"@,
        _ => seq![],
    }
}

/// The members of a namespace, each public and followed by an empty line.
pub open spec fn members_code(info: GenInfo, ds: Seq<Decl>, ind: nat) -> Seq<char>
    decreases ds, 0nat,
{
    if ds.len() == 0 {
        seq![]
    } else {
        members_code(info, ds.subrange(0, ds.len() - 1), ind) + decl_code(info, ds[ds.len() - 1], ind, true)
            + "\n"@
    }
}

/// The views of a list of string pairs.
pub open spec fn pairs_view(v: Seq<(String, String)>) -> Seq<(Seq<char>, Seq<char>)> {
    v.map_values(|p: (String, String)| (p.0@, p.1@))
}

/// The Rust types of the parts of an arrow type, appended.
fn flatten_rust_types(ty: &Type, out: &mut Vec<String>)
    ensures
        views(final(out)@) == views(old(out)@) + flatten_arrow(*ty).map_values(|t: Type| rust_type(t)),
    decreases ty,
{
    match ty {
        Type::Arrow(l, r) => {
            let mut t = String::new();
            push_rust_type(&mut t, l);
            proof {
                crate::resolver::lemma_views_push(out@, t);
            }
            out.push(t);
            let ghost mid = views(out@);
            flatten_rust_types(r, out);
            assert(flatten_arrow(*ty).map_values(|t: Type| rust_type(t)) =~= seq![rust_type(**l)] + flatten_arrow(**r).map_values(|t: Type| rust_type(t)));
            assert(views(out@) =~= views(old(out)@) + flatten_arrow(*ty).map_values(|t: Type| rust_type(t)));
        },
        _ => {
            let mut t = String::new();
            push_rust_type(&mut t, ty);
            proof {
                crate::resolver::lemma_views_push(out@, t);
            }
            out.push(t);
            assert(views(out@) =~= views(old(out)@) + flatten_arrow(*ty).map_values(|t: Type| rust_type(t)));
        },
    }
}

/// The variable the cases of a pattern-matching definition bind.
fn infer_match_param_name(cases: &Vec<(Vec<Pattern>, Expr)>) -> (r: String)
    ensures
        r@ == match_param_name(cases@),
{
    let mut i: usize = 0;
    assert(cases@.subrange(0, cases@.len() as int) =~= cases@);
    while i < cases.len()
        invariant
            i <= cases@.len(),
            match_param_name(cases@) == match_param_name(cases@.subrange(i as int, cases@.len() as int)),
        decreases cases.len() - i,
    {
        let ghost rest = cases@.subrange(i as int, cases@.len() as int);
        assert(rest[0] == cases@[i as int]);
        assert(rest.drop_first() =~= cases@.subrange(i + 1, cases@.len() as int));
        let pats = &cases[i].0;
        if pats.len() > 0 {
            match &pats[0] {
                Pattern::Var(name) => return copy_string(name),
                Pattern::Successor(name, _) => return copy_string(name),
                _ => {},
            }
        }
        i += 1;
    }
    let mut r = String::new();
    r.append("x");
    r
}

/// `x` followed by the index.
fn generic_param_name(i: usize) -> (r: String)
    ensures
        r@ == "x"@ + decimal(i as nat),
{
    let mut r = String::new();
    r.append("x");
    let n: u64 = i as u64;
    push_decimal(&mut r, n);
    r
}

/// The parameters and result type of a pattern-matching definition.
fn match_signature_exec(params: &Vec<(String, Type)>, return_type: &Option<Type>, mp: &String) -> (r: (Vec<(String, String)>, Option<String>))
    ensures
        pairs_view(r.0@) == match_signature(params@, *return_type, mp@).0,
        match match_signature(params@, *return_type, mp@).1 {
            Some(t) => r.1 matches Some(s) && s@ == t,
            None => r.1 is None,
        },
{
    let ghost sig = match_signature(params@, *return_type, mp@);
    let mut parts: Vec<String> = Vec::new();
    if params.len() == 0 {
        match return_type {
            Some(t) => flatten_rust_types(t, &mut parts),
            None => {},
        }
        let ghost pv = if return_type.is_some() {
            flatten_arrow(return_type->0)
        } else {
            seq![]
        };
        assert(views(parts@) =~= pv.map_values(|t: Type| rust_type(t)));
        if parts.len() >= 2 {
            let n = parts.len() - 1;
            let mut all: Vec<(String, String)> = Vec::new();
            let mut i: usize = 0;
            while i < n
                invariant
                    n == parts@.len() - 1,
                    i <= n,
                    views(parts@) == pv.map_values(|t: Type| rust_type(t)),
                    pv.len() == parts@.len(),
                    pairs_view(all@) == sig.0.subrange(0, i as int),
                    sig.0.len() == n,
                    forall|j: int| 0 <= j < n ==> #[trigger] sig.0[j] == (if j == n - 1 {
                        (mp@, rust_type(pv.drop_last()[j]))
                    } else {
                        ("x"@ + decimal(j as nat), rust_type(pv.drop_last()[j]))
                    }),
                decreases n - i,
            {
                assert(views(parts@)[i as int] == rust_type(pv[i as int]));
                let t = copy_string(&parts[i]);
                let name = if i == n - 1 {
                    copy_string(mp)
                } else {
                    generic_param_name(i)
                };
                let ghost a0 = all@;
                all.push((name, t));
                assert(pairs_view(all@) =~= pairs_view(a0).push((name@, t@)));
                assert(sig.0.subrange(0, i + 1) =~= sig.0.subrange(0, i as int).push(sig.0[i as int]));
                i += 1;
            }
            assert(sig.0.subrange(0, n as int) =~= sig.0);
            let ret = copy_string(&parts[n]);
            assert(views(parts@)[n as int] == rust_type(pv.last()));
            (all, Some(ret))
        } else if parts.len() == 1 {
            let mut all: Vec<(String, String)> = Vec::new();
            all.push((copy_string(mp), copy_string(&parts[0])));
            assert(views(parts@)[0] == rust_type(pv[0]));
            assert(pairs_view(all@) =~= sig.0);
            (all, None)
        } else {
            let all: Vec<(String, String)> = Vec::new();
            assert(pairs_view(all@) =~= sig.0);
            (all, None)
        }
    } else {
        let mut all: Vec<(String, String)> = Vec::new();
        let ghost base = params@.map_values(|p: (String, Type)| (p.0@, rust_type(p.1)));
        let mut i: usize = 0;
        while i < params.len()
            invariant
                i <= params@.len(),
                base == params@.map_values(|p: (String, Type)| (p.0@, rust_type(p.1))),
                pairs_view(all@) == base.subrange(0, i as int),
            decreases params.len() - i,
        {
            let mut t = String::new();
            push_rust_type(&mut t, &params[i].1);
            let ghost a0 = all@;
            let n = copy_string(&params[i].0);
            let ghost p = (n, t);
            all.push((n, t));
            assert(pairs_view(all@) =~= pairs_view(a0).push((p.0@, p.1@)));
            assert(base[i as int] == (params@[i as int].0@, rust_type(params@[i as int].1)));
            assert(base.subrange(0, i + 1) =~= base.subrange(0, i as int).push(base[i as int]));
            i += 1;
        }
        assert(base.subrange(0, i as int) =~= base);
        match return_type {
            Some(ty) => {
                flatten_rust_types(ty, &mut parts);
                let ghost pv = flatten_arrow(*ty);
                assert(views(parts@) =~= pv.map_values(|t: Type| rust_type(t)));
                if parts.len() >= 2 {
                    let n = parts.len() - 1;
                    let ghost extra = pv.drop_last().map_values(|q: Type| (mp@, rust_type(q)));
                    let mut k: usize = 0;
                    while k < n
                        invariant
                            n == parts@.len() - 1,
                            k <= n,
                            views(parts@) == pv.map_values(|t: Type| rust_type(t)),
                            pv.len() == parts@.len(),
                            extra == pv.drop_last().map_values(|q: Type| (mp@, rust_type(q))),
                            pairs_view(all@) == base + extra.subrange(0, k as int),
                        decreases n - k,
                    {
                        assert(views(parts@)[k as int] == rust_type(pv[k as int]));
                        let ghost a0 = all@;
                        let a = copy_string(mp);
                        let b = copy_string(&parts[k]);
                        let ghost p = (a, b);
                        all.push((a, b));
                        assert(pairs_view(all@) =~= pairs_view(a0).push((p.0@, p.1@)));
                        assert(extra[k as int] == (mp@, rust_type(pv[k as int])));
                        assert(extra.subrange(0, k + 1) =~= extra.subrange(0, k as int).push(extra[k as int]));
                        assert(pairs_view(all@) =~= base + extra.subrange(0, k + 1));
                        k += 1;
                    }
                    assert(extra.subrange(0, n as int) =~= extra);
                    let ret = copy_string(&parts[n]);
                    assert(views(parts@)[n as int] == rust_type(pv.last()));
                    (all, Some(ret))
                } else {
                    let mut rt = String::new();
                    push_rust_type(&mut rt, ty);
                    let ghost a0 = all@;
                    all.push((copy_string(mp), copy_string(&rt)));
                    assert(pairs_view(all@) =~= pairs_view(a0).push((mp@, rt@)));
                    (all, Some(rt))
                }
            },
            None => (all, None),
        }
    }
}

impl CodeGen {
    /// The Rust type a written type becomes.
    pub fn type_to_rust(&self, ty: &Type) -> (r: String)
        ensures
            r@ == rust_type(*ty),
    {
        let mut r = String::new();
        push_rust_type(&mut r, ty);
        r
    }

    /// Enters one indentation level.
    fn deeper(&mut self)
        ensures
            final(self).indent@ == old(self).indent@.push(0),
            final(self).level() == old(self).level() + 1,
            final(self).output == old(self).output,
            final(self).info() == old(self).info(),
    {
        self.indent.push(0);
    }

    /// Leaves one indentation level.
    fn shallower(&mut self)
        requires
            old(self).indent@.len() > 0,
        ensures
            final(self).indent@ == old(self).indent@.drop_last(),
            final(self).output == old(self).output,
            final(self).info() == old(self).info(),
    {
        self.indent.pop();
    }

    /// Appends the body of `main`.
    fn gen_do_body(&mut self, body: &Expr)
        ensures
            final(self).output@ == old(self).output@ + do_body_code(old(self).info(), *body, old(self).level()),
            final(self).frame(old(self)),
    {
        match body {
            Expr::Do(stmts) => self.gen_do_stmts(stmts),
            other => {
                self.emit_indent();
                self.gen_expr(other);
                self.output.append(";\n");
            },
        }
    }

    /// Appends `pub ` when `public`.
    fn emit_vis(&mut self, public: bool)
        ensures
            final(self).output@ == old(self).output@ + vis(public),
            final(self).indent == old(self).indent,
            final(self).info() == old(self).info(),
    {
        if public {
            self.output.append("pub ");
        } else {
            assert(self.output@ =~= old(self).output@ + vis(public));
        }
    }

    #[verifier::spinoff_prover]
    #[verifier::rlimit(40)]
    fn gen_fun_def(
        &mut self,
        name: &String,
        params: &Vec<(String, Type)>,
        return_type: &Option<Type>,
        body: &Expr,
        public: bool,
    )
        ensures
            final(self).output@ == old(self).output@ + fun_def_code(old(self).info(), name@, params@, *return_type, *body, old(self).level(), public),
            final(self).frame(old(self)),
    {
        let ghost ind0 = self.indent@;
        if crate::text::str_is(name.as_str(), "main") && is_io_unit(return_type) {
            self.emit_indent();
            self.emit_vis(public);
            self.output.append("fn main()");
            self.output.append(" {\n");
            self.deeper();
            self.gen_do_body(body);
            self.shallower();
            assert(self.indent@ =~= ind0);
            self.emit_line("}");
            return;
        }
        self.gen_fun_header(name, params, return_type, public);
        self.deeper();
        self.emit_indent();
        self.gen_expr(body);
        self.output.append("\n");
        self.shallower();
        assert(self.indent@ =~= ind0);
        self.emit_line("}");
    }

    /// Appends the header of a definition by an expression.
    fn gen_fun_header(&mut self, name: &String, params: &Vec<(String, Type)>, return_type: &Option<Type>, public: bool)
        ensures
            final(self).output@ == old(self).output@ + fun_header(name@, params@, *return_type, old(self).level(), public),
            final(self).frame(old(self)),
    {
        self.emit_indent();
        self.emit_vis(public);
        self.output.append("fn ");
        push_snake(&mut self.output, name.as_str());
        self.output.append("(");
        let ghost start = self.output@;
        let mut i: usize = 0;
        while i < params.len()
            invariant
                i <= params@.len(),
                self.frame(old(self)),
                self.output@ == start + join_text(params_code(params@.subrange(0, i as int)), ", "@),
            decreases params.len() - i,
        {
            proof {
                lemma_join_push(params_code(params@.subrange(0, i as int)), ", "@, param_code(params@[i as int]));
                assert(params_code(params@.subrange(0, i + 1)) =~= params_code(params@.subrange(0, i as int)).push(param_code(params@[i as int])));
            }
            if i > 0 {
                self.output.append(", ");
            }
            push_snake(&mut self.output, params[i].0.as_str());
            self.output.append(": ");
            push_rust_type(&mut self.output, &params[i].1);
            i += 1;
        }
        assert(params@.subrange(0, i as int) =~= params@);
        self.output.append(")");
        match return_type {
            Some(ret) => {
                if !matches!(ret, Type::Unit) {
                    self.output.append(" -> ");
                    push_rust_type(&mut self.output, ret);
                }
            },
            None => {},
        }
        self.output.append(" {\n");
    }

    #[verifier::spinoff_prover]
    #[verifier::rlimit(40)]
    fn gen_fun_def_match(
        &mut self,
        name: &String,
        params: &Vec<(String, Type)>,
        return_type: &Option<Type>,
        cases: &Vec<(Vec<Pattern>, Expr)>,
        public: bool,
    )
        ensures
            final(self).output@ == old(self).output@ + match_def_code(old(self).info(), name@, params@, *return_type, cases@, old(self).level(), public),
            final(self).frame(old(self)),
    {
        let ghost ind0 = self.indent@;
        let ghost info = self.info();
        let ghost ind = self.level();
        let mp = infer_match_param_name(cases);
        let (all_params, actual) = match_signature_exec(params, return_type, &mp);
        self.gen_match_header(name, &all_params, &actual, public);
        self.deeper();
        self.emit_indent();
        self.output.append("match ");
        push_snake(&mut self.output, mp.as_str());
        self.output.append(" {\n");
        self.deeper();
        let ghost before_cases = self.output@;
        let ghost ind2 = self.indent@;
        let mut k: usize = 0;
        while k < cases.len()
            invariant
                k <= cases@.len(),
                self.indent@ == ind2,
                ind2.len() == ind + 2,
                self.info() == info,
                self.output@ == before_cases + cases_code(info, cases@.subrange(0, k as int), ind + 2),
            decreases cases.len() - k,
        {
            assert(cases@.subrange(0, k + 1).drop_last() =~= cases@.subrange(0, k as int));
            let ghost c = cases@[k as int];
            let ghost o0 = self.output@;
            self.emit_indent();
            self.gen_case(&cases[k].0, &cases[k].1);
            assert(self.output@ =~= o0 + indent_text(ind + 2) + case_code(info, c, ind + 2));
            k += 1;
        }
        assert(cases@.subrange(0, k as int) =~= cases@);
        self.shallower();
        self.emit_indent();
        self.output.append("}\n");
        self.shallower();
        assert(self.indent@ =~= ind0);
        self.emit_line("}");
    }

    /// Appends the header of a pattern-matching definition.
    #[verifier::spinoff_prover]
    #[verifier::rlimit(40)]
    fn gen_match_header(&mut self, name: &String, all_params: &Vec<(String, String)>, actual: &Option<String>, public: bool)
        ensures
            final(self).output@ == old(self).output@ + match_header(
                name@,
                (pairs_view(all_params@), match *actual { Some(r) => Some(r@), None => None }),
                old(self).level(),
                public,
            ),
            final(self).frame(old(self)),
    {
        self.emit_indent();
        self.emit_vis(public);
        self.output.append("fn ");
        push_snake(&mut self.output, name.as_str());
        self.output.append("(");
        let ghost start = self.output@;
        let ghost sig = pairs_view(all_params@);
        let mut i: usize = 0;
        while i < all_params.len()
            invariant
                i <= all_params@.len(),
                sig == pairs_view(all_params@),
                self.frame(old(self)),
                self.output@ == start + join_text(sig_params_code(sig.subrange(0, i as int)), ", "@),
            decreases all_params.len() - i,
        {
            proof {
                let pc = snake(sig[i as int].0) + ": "@ + sig[i as int].1;
                lemma_join_push(sig_params_code(sig.subrange(0, i as int)), ", "@, pc);
                assert(sig_params_code(sig.subrange(0, i + 1)) =~= sig_params_code(sig.subrange(0, i as int)).push(pc));
            }
            if i > 0 {
                self.output.append(", ");
            }
            push_snake(&mut self.output, all_params[i].0.as_str());
            self.output.append(": ");
            self.output.append(all_params[i].1.as_str());
            i += 1;
        }
        assert(sig.subrange(0, i as int) =~= sig);
        self.output.append(")");
        match actual {
            Some(r) => {
                if !crate::text::str_is(r.as_str(), "()") {
                    self.output.append(" -> ");
                    self.output.append(r.as_str());
                }
            },
            None => {},
        }
        self.output.append(" {\n");
    }

    /// Appends one case of a pattern-matching definition.
    fn gen_case(&mut self, pats: &Vec<Pattern>, body: &Expr)
        ensures
            final(self).output@ == old(self).output@ + case_code(old(self).info(), (*pats, *body), old(self).level()),
            final(self).frame(old(self)),
    {
        let ghost ind0 = self.indent@;
        if pats.len() > 0 {
            match &pats[0] {
                Pattern::Successor(var, n) => {
                    let sv = to_snake_case(var.as_str());
                    self.output.append(sv.as_str());
                    self.output.append(" => {\n");
                    self.deeper();
                    self.emit_indent();
                    self.output.append("let ");
                    self.output.append(sv.as_str());
                    self.output.append(" = ");
                    self.output.append(sv.as_str());
                    self.output.append(".saturating_sub(");
                    push_decimal(&mut self.output, *n);
                    self.output.append(");\n");
                    self.emit_indent();
                    self.gen_expr(body);
                    self.output.append("\n");
                    self.shallower();
                    assert(self.indent@ =~= ind0);
                    self.emit_indent();
                    self.output.append("}\n");
                    return;
                },
                _ => {},
            }
        }
        if pats.len() > 0 {
            self.gen_pattern(&pats[0]);
        }
        self.output.append(" => ");
        self.gen_expr(body);
        self.output.append(",\n");
    }

    #[verifier::spinoff_prover]
    #[verifier::rlimit(40)]
    fn gen_inductive(&mut self, name: &String, constructors: &Vec<Constructor>, public: bool)
        ensures
            final(self).output@ == old(self).output@ + inductive_code(name@, constructors@, old(self).level(), public),
            final(self).frame(old(self)),
    {
        let ghost ind0 = self.indent@;
        let ghost ind = self.level();
        self.emit_line("#[derive(Debug, Clone, PartialEq)]");
        self.emit_indent();
        self.emit_vis(public);
        self.output.append("enum ");
        self.output.append(name.as_str());
        self.output.append(" {");
        self.output.append("\n");
        self.deeper();
        let ghost start = self.output@;
        let mut i: usize = 0;
        while i < constructors.len()
            invariant
                i <= constructors@.len(),
                self.indent@ == ind0.push(0),
                ind0.len() == ind,
                self.info() == old(self).info(),
                self.output@ == start + variants_code(constructors@.subrange(0, i as int), ind + 1),
            decreases constructors.len() - i,
        {
            assert(constructors@.subrange(0, i + 1).drop_last() =~= constructors@.subrange(0, i as int));
            let ctor = &constructors[i];
            self.emit_indent();
            push_pascal(&mut self.output, ctor.name.as_str());
            if ctor.fields.len() == 0 {
                self.output.append(",\n");
            } else {
                self.output.append("(");
                let ghost fs = self.output@;
                let mut j: usize = 0;
                while j < ctor.fields.len()
                    invariant
                        j <= ctor.fields@.len(),
                        self.indent@ == ind0.push(0),
                        self.info() == old(self).info(),
                        self.output@ == fs + join_text(rust_types(ctor.fields@.subrange(0, j as int)), ", "@),
                    decreases ctor.fields.len() - j,
                {
                    proof {
                        lemma_join_push(rust_types(ctor.fields@.subrange(0, j as int)), ", "@, rust_type(ctor.fields@[j as int]));
                        assert(ctor.fields@.subrange(0, j + 1).subrange(0, j as int) =~= ctor.fields@.subrange(0, j as int));
                    }
                    if j > 0 {
                        self.output.append(", ");
                    }
                    push_rust_type(&mut self.output, &ctor.fields[j]);
                    j += 1;
                }
                assert(ctor.fields@.subrange(0, j as int) =~= ctor.fields@);
                self.output.append("),\n");
            }
            i += 1;
        }
        assert(constructors@.subrange(0, i as int) =~= constructors@);
        self.shallower();
        assert(self.indent@ =~= ind0);
        self.emit_line("}");
    }

    #[verifier::spinoff_prover]
    #[verifier::rlimit(40)]
    fn gen_struct(&mut self, name: &String, fields: &Vec<(String, Type)>, public: bool)
        ensures
            final(self).output@ == old(self).output@ + struct_code(name@, fields@, old(self).level(), public),
            final(self).frame(old(self)),
    {
        let ghost ind0 = self.indent@;
        let ghost ind = self.level();
        self.emit_line("#[derive(Debug, Clone, PartialEq)]");
        self.emit_indent();
        self.emit_vis(public);
        self.output.append("struct ");
        self.output.append(name.as_str());
        self.output.append(" {");
        self.output.append("\n");
        self.deeper();
        let ghost start = self.output@;
        let mut i: usize = 0;
        while i < fields.len()
            invariant
                i <= fields@.len(),
                self.indent@ == ind0.push(0),
                ind0.len() == ind,
                self.info() == old(self).info(),
                self.output@ == start + fields_code(fields@.subrange(0, i as int), ind + 1, public),
            decreases fields.len() - i,
        {
            assert(fields@.subrange(0, i + 1).drop_last() =~= fields@.subrange(0, i as int));
            self.emit_indent();
            self.emit_vis(public);
            self.output.append(fields[i].0.as_str());
            self.output.append(": ");
            push_rust_type(&mut self.output, &fields[i].1);
            self.output.append(",\n");
            i += 1;
        }
        assert(fields@.subrange(0, i as int) =~= fields@);
        self.shallower();
        assert(self.indent@ =~= ind0);
        self.emit_line("}");
    }

    /// Appends the code of a declaration; `public` inside a namespace.
    fn gen_decl(&mut self, decl: &Decl, public: bool)
        ensures
            final(self).output@ == old(self).output@ + decl_code(old(self).info(), *decl, old(self).level(), public),
            final(self).frame(old(self)),
        decreases decl,
    {
        match decl {
            Decl::FunDef { name, params, return_type, body } => self.gen_fun_def(name, params, return_type, body, public),
            Decl::FunDefMatch { name, params, return_type, cases } => self.gen_fun_def_match(name, params, return_type, cases, public),
            Decl::InductiveDef { name, constructors } => self.gen_inductive(name, constructors, public),
            Decl::StructDef { name, fields } => self.gen_struct(name, fields, public),
            Decl::Namespace { name, decls } => {
                let ghost ind0 = self.indent@;
                let ghost info = self.info();
                let ghost ind = self.level();
                self.emit_indent();
                self.output.append("mod ");
                push_snake(&mut self.output, name.as_str());
                self.output.append(" {");
                self.output.append("\n");
                self.deeper();
                let ghost start = self.output@;
                let mut i: usize = 0;
                while i < decls.len()
                    invariant
                        i <= decls@.len(),
                        *decl == (Decl::Namespace { name: decl->Namespace_name, decls: *decls }),
                        self.indent@ == ind0.push(0),
                        ind0.len() == ind,
                        self.info() == info,
                        info == old(self).info(),
                        self.output@ == start + members_code(info, decls@.subrange(0, i as int), ind + 1),
                    decreases decls.len() - i,
                {
                    proof {
                        assert(decreases_to!(*decl => (*decl)->Namespace_decls));
                        assert(decreases_to!(*decls => decls[i as int]));
                        assert(decls@.subrange(0, i + 1).subrange(0, i as int) =~= decls@.subrange(0, i as int));
                    }
                    self.gen_decl(&decls[i], true);
                    self.output.append("\n");
                    i += 1;
                }
                assert(decls@.subrange(0, i as int) =~= decls@);
                self.shallower();
                assert(self.indent@ =~= ind0);
                self.emit_line("}");
            },
            _ => {},
        }
    }
}

// ---------------------------------------------------------------------------
// Reachability
// ---------------------------------------------------------------------------

/// A name, and the part before its first dot if it is qualified.
pub open spec fn name_heads(n: Seq<char>) -> Set<Seq<char>> {
    match first_dot(n) {
        Some(d) => set![n, n.subrange(0, d)],
        None => set![n],
    }
}

/// The names an expression mentions.
pub open spec fn expr_names(e: Expr) -> Set<Seq<char>>
    decreases e,
{
    match e {
        Expr::Var(name, _) => name_heads(name@),
        Expr::BinOp { lhs, rhs, .. } => expr_names(*lhs).union(expr_names(*rhs)),
        Expr::UnaryOp { operand, .. } => expr_names(*operand),
        Expr::FunApp { func, arg } => expr_names(*func).union(expr_names(*arg)),
        Expr::If { cond, then_branch, else_branch } => expr_names(*cond).union(
            expr_names(*then_branch),
        ).union(expr_names(*else_branch)),
        Expr::Let { value, body, .. } => expr_names(*value).union(expr_names(*body)),
        Expr::Match { scrutinee, arms } => expr_names(*scrutinee).union(arms_names(arms@)),
        Expr::Do(stmts) => stmts_names(stmts@),
        Expr::Lambda { body, .. } => expr_names(*body),
        Expr::Paren(inner) => expr_names(*inner),
        Expr::Tuple(elems) => exprs_names(elems@),
        Expr::StringInterpolation(parts) => parts_names(parts@),
        _ => Set::empty(),
    }
}

pub open spec fn arms_names(arms: Seq<MatchArm>) -> Set<Seq<char>>
    decreases arms,
{
    if arms.len() == 0 {
        Set::empty()
    } else {
        arms_names(arms.subrange(0, arms.len() - 1)).union(
            pattern_names(arms[arms.len() - 1].pattern),
        ).union(expr_names(arms[arms.len() - 1].body))
    }
}

pub open spec fn stmts_names(stmts: Seq<DoStatement>) -> Set<Seq<char>>
    decreases stmts,
{
    if stmts.len() == 0 {
        Set::empty()
    } else {
        stmts_names(stmts.subrange(0, stmts.len() - 1)).union(
            match stmts[stmts.len() - 1] {
                DoStatement::Expr(e) => expr_names(e),
                DoStatement::Let(_, v) => expr_names(v),
            },
        )
    }
}

pub open spec fn exprs_names(es: Seq<Expr>) -> Set<Seq<char>>
    decreases es,
{
    if es.len() == 0 {
        Set::empty()
    } else {
        exprs_names(es.subrange(0, es.len() - 1)).union(expr_names(es[es.len() - 1]))
    }
}

pub open spec fn parts_names(ps: Seq<StringInterpPart>) -> Set<Seq<char>>
    decreases ps,
{
    if ps.len() == 0 {
        Set::empty()
    } else {
        parts_names(ps.subrange(0, ps.len() - 1)).union(
            match ps[ps.len() - 1] {
                StringInterpPart::Expr(e) => expr_names(e),
                StringInterpPart::Literal(_) => Set::empty(),
            },
        )
    }
}

/// The constructor names a pattern mentions.
pub open spec fn pattern_names(p: Pattern) -> Set<Seq<char>>
    decreases p,
{
    match p {
        Pattern::Constructor(name, args) => name_heads(name@).union(patterns_names(args@)),
        _ => Set::empty(),
    }
}

pub open spec fn patterns_names(ps: Seq<Pattern>) -> Set<Seq<char>>
    decreases ps,
{
    if ps.len() == 0 {
        Set::empty()
    } else {
        patterns_names(ps.subrange(0, ps.len() - 1)).union(pattern_names(ps[ps.len() - 1]))
    }
}

/// The names the cases of a pattern-matching definition mention.
pub open spec fn cases_names(cases: Seq<(Vec<Pattern>, Expr)>) -> Set<Seq<char>>
    decreases cases.len(),
{
    if cases.len() == 0 {
        Set::empty()
    } else {
        cases_names(cases.drop_last()).union(patterns_names(cases.last().0@)).union(
            expr_names(cases.last().1),
        )
    }
}

/// What each definition refers to, keyed by its qualified name, in the
/// order they are recorded (the latest entry for a key counts).
pub open spec fn decl_ref_entries(d: Decl, prefix: Seq<char>) -> Seq<(Seq<char>, Set<Seq<char>>)>
    decreases d, 1nat,
{
    match d {
        Decl::FunDef { name, body, .. } => seq![(qualify(prefix, name@), expr_names(body))],
        Decl::FunDefMatch { name, cases, .. } => seq![(qualify(prefix, name@), cases_names(cases@))],
        Decl::InductiveDef { name, .. } => seq![(qualify(prefix, name@), Set::empty())],
        Decl::StructDef { name, .. } => seq![(qualify(prefix, name@), Set::empty())],
        Decl::Namespace { name, decls } => decls_ref_entries(decls@, qualify(prefix, name@)),
        _ => seq![],
    }
}

pub open spec fn decls_ref_entries(ds: Seq<Decl>, prefix: Seq<char>) -> Seq<(Seq<char>, Set<Seq<char>>)>
    decreases ds, 0nat,
{
    if ds.len() == 0 {
        seq![]
    } else {
        decls_ref_entries(ds.subrange(0, ds.len() - 1), prefix) + decl_ref_entries(
            ds[ds.len() - 1],
            prefix,
        )
    }
}

/// The qualified names of the named members of a namespace.
pub open spec fn inner_qualified(ds: Seq<Decl>, q: Seq<char>) -> Seq<Seq<char>>
    decreases ds.len(),
{
    if ds.len() == 0 {
        seq![]
    } else {
        inner_qualified(ds.drop_last(), q) + match ds.last() {
            Decl::FunDef { name, .. } => seq![dotted(q, name@)],
            Decl::FunDefMatch { name, .. } => seq![dotted(q, name@)],
            Decl::InductiveDef { name, .. } => seq![dotted(q, name@)],
            Decl::StructDef { name, .. } => seq![dotted(q, name@)],
            Decl::Namespace { name, .. } => seq![dotted(q, name@)],
            _ => seq![],
        }
    }
}

/// The names that come with a type or a namespace: its constructors, its
/// `mk` and fields, or its members.
pub open spec fn decl_assoc_entries(d: Decl, prefix: Seq<char>) -> Seq<(Seq<char>, Seq<Seq<char>>)>
    decreases d, 1nat,
{
    match d {
        Decl::InductiveDef { name, constructors } => seq![
            (
                qualify(prefix, name@),
                seq![qualify(prefix, name@)] + crate::resolver::ctor_names(
                    constructors@,
                    name@,
                    prefix,
                ),
            ),
        ],
        Decl::StructDef { name, fields } => seq![
            (
                qualify(prefix, name@),
                seq![qualify(prefix, name@), dotted(name@, "mk"@)] + crate::resolver::opt_prefixed(
                    prefix,
                    dotted(name@, "mk"@),
                ) + crate::resolver::field_names(fields@, name@, prefix),
            ),
        ],
        Decl::Namespace { name, decls } => decls_assoc_entries(decls@, qualify(prefix, name@)) + seq![
            (
                qualify(prefix, name@),
                seq![qualify(prefix, name@)] + inner_qualified(decls@, qualify(prefix, name@)),
            ),
        ],
        _ => seq![],
    }
}

pub open spec fn decls_assoc_entries(ds: Seq<Decl>, prefix: Seq<char>) -> Seq<(Seq<char>, Seq<Seq<char>>)>
    decreases ds, 0nat,
{
    if ds.len() == 0 {
        seq![]
    } else {
        decls_assoc_entries(ds.subrange(0, ds.len() - 1), prefix) + decl_assoc_entries(
            ds[ds.len() - 1],
            prefix,
        )
    }
}

/// The latest set recorded for `key`, if any.
pub open spec fn latest_set(entries: Seq<(Seq<char>, Set<Seq<char>>)>, key: Seq<char>) -> Option<
    Set<Seq<char>>,
>
    decreases entries.len(),
{
    if entries.len() == 0 {
        None
    } else if entries.last().0 == key {
        Some(entries.last().1)
    } else {
        latest_set(entries.drop_last(), key)
    }
}

/// The names that reaching `n` makes reachable.
pub open spec fn successors(ds: Seq<Decl>, n: Seq<char>) -> Set<Seq<char>> {
    (match latest_set(decls_ref_entries(ds, seq![]), n) {
        Some(s) => s,
        None => Set::empty(),
    }).union(
        match latest(decls_assoc_entries(ds, seq![]), n) {
            Some(v) => v.to_set(),
            None => Set::empty(),
        },
    )
}

/// Whether a top-level declaration is the `main` definition.
pub open spec fn is_main_def(d: Decl) -> bool {
    match d {
        Decl::FunDef { name, .. } => name@ == "main"@,
        Decl::FunDefMatch { name, .. } => name@ == "main"@,
        _ => false,
    }
}

/// Whether a program has an entry point: `main` or an `#eval`.
pub open spec fn has_entry_point(ds: Seq<Decl>) -> bool {
    exists|i: int| 0 <= i < ds.len() && (is_main_def(#[trigger] ds[i]) || ds[i] is Eval)
}

/// The names the entry points start from.
pub open spec fn root_names(ds: Seq<Decl>) -> Set<Seq<char>>
    decreases ds.len(),
{
    if ds.len() == 0 {
        Set::empty()
    } else {
        root_names(ds.drop_last()).union(
            match ds.last() {
                Decl::FunDef { name, .. } => if name@ == "main"@ {
                    set![name@]
                } else {
                    Set::empty()
                },
                Decl::FunDefMatch { name, .. } => if name@ == "main"@ {
                    set![name@]
                } else {
                    Set::empty()
                },
                Decl::Eval(e) => expr_names(e),
                Decl::Import { path } => if path.segments@.len() > 0 {
                    set![path.segments@.last()@]
                } else {
                    Set::empty()
                },
                Decl::Open { path } => set![join_with(views(path.segments@), '.')].union(
                    if path.segments@.len() == 1 {
                        set![path.segments@[0]@]
                    } else {
                        Set::empty()
                    },
                ),
                _ => Set::empty(),
            },
        )
    }
}

/// The names of all declarations, namespaces' members included.
pub open spec fn all_decl_names(ds: Seq<Decl>) -> Set<Seq<char>>
    decreases ds,
{
    if ds.len() == 0 {
        Set::empty()
    } else {
        all_decl_names(ds.subrange(0, ds.len() - 1)).union(
            match ds[ds.len() - 1] {
                Decl::FunDef { name, .. } => set![name@],
                Decl::FunDefMatch { name, .. } => set![name@],
                Decl::InductiveDef { name, .. } => set![name@],
                Decl::StructDef { name, .. } => set![name@],
                Decl::Namespace { name, decls } => set![name@].union(all_decl_names(decls@)),
                _ => Set::empty(),
            },
        )
    }
}

/// Whether a set of names holds everything its members make reachable.
pub open spec fn closed_under(ds: Seq<Decl>, s: Set<Seq<char>>) -> bool {
    forall|n: Seq<char>| s.contains(n) ==> #[trigger] successors(ds, n).subset_of(s)
}

/// The names kept in the output: with an entry point, the least set that
/// holds the roots and is closed under what its members make reachable;
/// without one, every declared name.
pub open spec fn reachable_names(ds: Seq<Decl>) -> Set<Seq<char>> {
    if has_entry_point(ds) {
        Set::new(
            |n: Seq<char>|
                forall|s: Set<Seq<char>>|
                    root_names(ds).subset_of(s) && closed_under(ds, s) ==> #[trigger] s.contains(n),
        )
    } else {
        all_decl_names(ds)
    }
}

/// The set of the names in a list.
pub open spec fn name_set(v: Seq<String>) -> Set<Seq<char>> {
    views(v).to_set()
}

proof fn lemma_name_set_push(v: Seq<String>, x: String)
    ensures
        name_set(v.push(x)) == name_set(v).insert(x@),
{
    crate::resolver::lemma_views_push(v, x);
    assert(views(v).push(x@).to_set() =~= views(v).to_set().insert(x@)) by {
        assert forall|n: Seq<char>| views(v).push(x@).to_set().contains(n) implies views(v).to_set().insert(x@).contains(n) by {
            let i = choose|i: int| 0 <= i < views(v).push(x@).len() && views(v).push(x@)[i] == n;
            if i < views(v).len() {
                assert(views(v)[i] == n);
            }
        }
        assert forall|n: Seq<char>| views(v).to_set().insert(x@).contains(n) implies views(v).push(x@).to_set().contains(n) by {
            if n == x@ {
                assert(views(v).push(x@)[views(v).len() as int] == n);
            } else {
                let i = choose|i: int| 0 <= i < views(v).len() && views(v)[i] == n;
                assert(views(v).push(x@)[i] == n);
            }
        }
    }
}

/// Adds a name to a list of names.
fn add_name(names: &mut Vec<String>, x: String)
    ensures
        name_set(final(names)@) == name_set(old(names)@).insert(x@),
{
    proof {
        lemma_name_set_push(names@, x);
    }
    names.push(x);
}

/// Adds a name and, if it is qualified, the part before its first dot.
fn add_name_heads(names: &mut Vec<String>, name: &String)
    ensures
        name_set(final(names)@) == name_set(old(names)@).union(name_heads(name@)),
{
    add_name(names, copy_string(name));
    let v = chars_of(name.as_str());
    proof {
        lemma_first_dot(v@);
    }
    match find_first_dot(&v) {
        Some(d) => {
            let head = crate::text::string_from_prefix(&v, d);
            assert(head@ =~= name@.subrange(0, d as int));
            add_name(names, head);
            assert(name_heads(name@) == set![name@, name@.subrange(0, d as int)]);
            assert(name_set(names@) =~= name_set(old(names)@).union(name_heads(name@)));
        },
        None => {
            assert(name_heads(name@) == set![name@]);
            assert(name_set(names@) =~= name_set(old(names)@).union(name_heads(name@)));
        },
    }
}

/// Adds the constructor names a pattern mentions.
fn collect_names_pattern(pat: &Pattern, names: &mut Vec<String>)
    ensures
        name_set(final(names)@) == name_set(old(names)@).union(pattern_names(*pat)),
    decreases pat,
{
    match pat {
        Pattern::Constructor(name, args) => {
            add_name_heads(names, name);
            let ghost mid = name_set(names@);
            let mut i: usize = 0;
            while i < args.len()
                invariant
                    i <= args@.len(),
                    *pat == Pattern::Constructor(pat->Constructor_0, *args),
                    name_set(names@) == mid.union(patterns_names(args@.subrange(0, i as int))),
                decreases args.len() - i,
            {
                proof {
                    assert(decreases_to!(*pat => (*pat)->Constructor_1));
                    assert(decreases_to!(*args => args[i as int]));
                    assert(args@.subrange(0, i + 1).subrange(0, i as int) =~= args@.subrange(0, i as int));
                }
                collect_names_pattern(&args[i], names);
                assert(name_set(names@) =~= mid.union(patterns_names(args@.subrange(0, i + 1))));
                i += 1;
            }
            assert(args@.subrange(0, i as int) =~= args@);
            assert(name_set(names@) =~= name_set(old(names)@).union(pattern_names(*pat)));
        },
        _ => {
            assert(name_set(names@) =~= name_set(old(names)@).union(pattern_names(*pat)));
        },
    }
}

/// Adds the names an expression mentions.
fn collect_names_expr(expr: &Expr, names: &mut Vec<String>)
    ensures
        name_set(final(names)@) == name_set(old(names)@).union(expr_names(*expr)),
    decreases expr,
{
    let ghost n0 = name_set(names@);
    match expr {
        Expr::Var(name, _) => add_name_heads(names, name),
        Expr::BinOp { lhs, rhs, .. } | Expr::FunApp { func: lhs, arg: rhs } => {
            collect_names_expr(lhs, names);
            collect_names_expr(rhs, names);
            assert(name_set(names@) =~= n0.union(expr_names(*expr)));
        },
        Expr::UnaryOp { operand, .. } => collect_names_expr(operand, names),
        Expr::If { cond, then_branch, else_branch } => {
            collect_names_expr(cond, names);
            collect_names_expr(then_branch, names);
            collect_names_expr(else_branch, names);
            assert(name_set(names@) =~= n0.union(expr_names(*expr)));
        },
        Expr::Let { value, body, .. } => {
            collect_names_expr(value, names);
            collect_names_expr(body, names);
            assert(name_set(names@) =~= n0.union(expr_names(*expr)));
        },
        Expr::Match { scrutinee, arms } => {
            collect_names_expr(scrutinee, names);
            let ghost mid = name_set(names@);
            let mut i: usize = 0;
            while i < arms.len()
                invariant
                    i <= arms@.len(),
                    *expr == (Expr::Match { scrutinee: *scrutinee, arms: *arms }),
                    name_set(names@) == mid.union(arms_names(arms@.subrange(0, i as int))),
                decreases arms.len() - i,
            {
                proof {
                    assert(decreases_to!(*expr => (*expr)->arms));
                    assert(decreases_to!(*arms => arms[i as int]));
                    assert(decreases_to!(arms[i as int] => arms[i as int].body));
                    assert(arms@.subrange(0, i + 1).subrange(0, i as int) =~= arms@.subrange(0, i as int));
                }
                collect_names_pattern(&arms[i].pattern, names);
                collect_names_expr(&arms[i].body, names);
                assert(name_set(names@) =~= mid.union(arms_names(arms@.subrange(0, i + 1))));
                i += 1;
            }
            assert(arms@.subrange(0, i as int) =~= arms@);
            assert(name_set(names@) =~= n0.union(expr_names(*expr)));
        },
        Expr::Do(stmts) => {
            let mut i: usize = 0;
            while i < stmts.len()
                invariant
                    i <= stmts@.len(),
                    *expr == Expr::Do(*stmts),
                    name_set(names@) == n0.union(stmts_names(stmts@.subrange(0, i as int))),
                decreases stmts.len() - i,
            {
                proof {
                    assert(decreases_to!(*expr => (*expr)->Do_0));
                    assert(decreases_to!(*stmts => stmts[i as int]));
                    assert(stmts@.subrange(0, i + 1).subrange(0, i as int) =~= stmts@.subrange(0, i as int));
                }
                match &stmts[i] {
                    DoStatement::Expr(e) => {
                        assert(decreases_to!(stmts[i as int] => stmts[i as int]->Expr_0));
                        collect_names_expr(e, names);
                    },
                    DoStatement::Let(_, v) => {
                        assert(decreases_to!(stmts[i as int] => stmts[i as int]->Let_1));
                        collect_names_expr(v, names);
                    },
                }
                assert(name_set(names@) =~= n0.union(stmts_names(stmts@.subrange(0, i + 1))));
                i += 1;
            }
            assert(stmts@.subrange(0, i as int) =~= stmts@);
        },
        Expr::Lambda { body, .. } => collect_names_expr(body, names),
        Expr::Paren(inner) => collect_names_expr(inner, names),
        Expr::Tuple(elems) => {
            let mut i: usize = 0;
            while i < elems.len()
                invariant
                    i <= elems@.len(),
                    *expr == Expr::Tuple(*elems),
                    name_set(names@) == n0.union(exprs_names(elems@.subrange(0, i as int))),
                decreases elems.len() - i,
            {
                proof {
                    assert(decreases_to!(*expr => (*expr)->Tuple_0));
                    assert(decreases_to!(*elems => elems[i as int]));
                    assert(elems@.subrange(0, i + 1).subrange(0, i as int) =~= elems@.subrange(0, i as int));
                }
                collect_names_expr(&elems[i], names);
                assert(name_set(names@) =~= n0.union(exprs_names(elems@.subrange(0, i + 1))));
                i += 1;
            }
            assert(elems@.subrange(0, i as int) =~= elems@);
        },
        Expr::StringInterpolation(parts) => {
            let mut i: usize = 0;
            while i < parts.len()
                invariant
                    i <= parts@.len(),
                    *expr == Expr::StringInterpolation(*parts),
                    name_set(names@) == n0.union(parts_names(parts@.subrange(0, i as int))),
                decreases parts.len() - i,
            {
                proof {
                    assert(decreases_to!(*expr => (*expr)->StringInterpolation_0));
                    assert(decreases_to!(*parts => parts[i as int]));
                    assert(parts@.subrange(0, i + 1).subrange(0, i as int) =~= parts@.subrange(0, i as int));
                }
                match &parts[i] {
                    StringInterpPart::Expr(e) => {
                        assert(decreases_to!(parts[i as int] => parts[i as int]->Expr_0));
                        collect_names_expr(e, names);
                    },
                    StringInterpPart::Literal(_) => {},
                }
                assert(name_set(names@) =~= n0.union(parts_names(parts@.subrange(0, i + 1))));
                i += 1;
            }
            assert(parts@.subrange(0, i as int) =~= parts@);
        },
        _ => {
            assert(name_set(names@) =~= n0.union(expr_names(*expr)));
        },
    }
}

/// The reference table's entries as names with sets of names.
pub open spec fn ref_view(v: Seq<(String, Vec<String>)>) -> Seq<(Seq<char>, Set<Seq<char>>)> {
    v.map_values(|p: (String, Vec<String>)| (p.0@, name_set(p.1@)))
}

/// `a.b` as a `String`.
fn dot_join(a: &String, b: &str) -> (r: String)
    ensures
        r@ == dotted(a@, b@),
{
    let mut r = copy_string(a);
    push_char(&mut r, '.');
    r.append(b);
    r
}

/// `prefix.name`, or `name` without a prefix.
fn qualified_name(prefix: &String, name: &String) -> (r: String)
    ensures
        r@ == qualify(prefix@, name@),
{
    if prefix.as_str().unicode_len() == 0 {
        copy_string(name)
    } else {
        dot_join(prefix, name.as_str())
    }
}

/// Appends a name to a list, tracking the views.
fn push_view(v: &mut Vec<String>, x: String)
    ensures
        views(final(v)@) == views(old(v)@).push(x@),
{
    proof {
        crate::resolver::lemma_views_push(v@, x);
    }
    v.push(x);
}

/// Appends `prefix.x` when there is a prefix.
fn push_opt_prefixed(v: &mut Vec<String>, prefix: &String, x: &String)
    ensures
        views(final(v)@) == views(old(v)@) + crate::resolver::opt_prefixed(prefix@, x@),
{
    if prefix.as_str().unicode_len() > 0 {
        push_view(v, dot_join(prefix, x.as_str()));
        assert(views(v@) =~= views(old(v)@) + crate::resolver::opt_prefixed(prefix@, x@));
    } else {
        assert(views(v@) =~= views(old(v)@) + crate::resolver::opt_prefixed(prefix@, x@));
    }
}

/// Records what one declaration refers to and what comes with it.
fn collect_reachable_decl(
    decl: &Decl,
    prefix: &String,
    refs: &mut Vec<(String, Vec<String>)>,
    assoc: &mut Vec<(String, Vec<String>)>,
)
    ensures
        ref_view(final(refs)@) == ref_view(old(refs)@) + decl_ref_entries(*decl, prefix@),
        entries_view(final(assoc)@) == entries_view(old(assoc)@) + decl_assoc_entries(*decl, prefix@),
    decreases decl, 1nat,
{
    let ghost r0 = refs@;
    let ghost a0 = assoc@;
    match decl {
        Decl::FunDef { name, body, .. } => {
            let q = qualified_name(prefix, name);
            let mut names: Vec<String> = Vec::new();
            assert(name_set(names@) =~= Set::<Seq<char>>::empty());
            collect_names_expr(body, &mut names);
            assert(name_set(names@) =~= expr_names(*body));
            let ghost entry = (q, names);
            refs.push((q, names));
            assert(ref_view(refs@) =~= ref_view(r0).push((entry.0@, name_set(entry.1@))));
            assert(ref_view(refs@) =~= ref_view(r0) + decl_ref_entries(*decl, prefix@));
            assert(entries_view(assoc@) =~= entries_view(a0) + decl_assoc_entries(*decl, prefix@));
        },
        Decl::FunDefMatch { name, cases, .. } => {
            let q = qualified_name(prefix, name);
            let mut names: Vec<String> = Vec::new();
            assert(name_set(names@) =~= Set::<Seq<char>>::empty());
            let mut i: usize = 0;
            while i < cases.len()
                invariant
                    i <= cases@.len(),
                    name_set(names@) == cases_names(cases@.subrange(0, i as int)),
                decreases cases.len() - i,
            {
                assert(cases@.subrange(0, i + 1).drop_last() =~= cases@.subrange(0, i as int));
                let ghost m0 = name_set(names@);
                let pats = &cases[i].0;
                let mut k: usize = 0;
                while k < pats.len()
                    invariant
                        k <= pats@.len(),
                        name_set(names@) == m0.union(patterns_names(pats@.subrange(0, k as int))),
                    decreases pats.len() - k,
                {
                    assert(pats@.subrange(0, k + 1).subrange(0, k as int) =~= pats@.subrange(0, k as int));
                    collect_names_pattern(&pats[k], &mut names);
                    assert(name_set(names@) =~= m0.union(patterns_names(pats@.subrange(0, k + 1))));
                    k += 1;
                }
                assert(pats@.subrange(0, k as int) =~= pats@);
                collect_names_expr(&cases[i].1, &mut names);
                assert(name_set(names@) =~= cases_names(cases@.subrange(0, i + 1)));
                i += 1;
            }
            assert(cases@.subrange(0, i as int) =~= cases@);
            assert(name_set(names@) == cases_names(cases@));
            let ghost entry = (q, names);
            refs.push((q, names));
            assert(ref_view(refs@) =~= ref_view(r0).push((entry.0@, name_set(entry.1@))));
            assert(ref_view(refs@) =~= ref_view(r0) + decl_ref_entries(*decl, prefix@));
            assert(entries_view(assoc@) =~= entries_view(a0) + decl_assoc_entries(*decl, prefix@));
        },
        Decl::InductiveDef { name, constructors } => {
            let q = qualified_name(prefix, name);
            let mut associated: Vec<String> = Vec::new();
            assert(views(associated@) =~= Seq::<Seq<char>>::empty());
            push_view(&mut associated, copy_string(&q));
            let ghost s0 = views(associated@);
            assert(s0 =~= seq![q@]);
            let mut i: usize = 0;
            while i < constructors.len()
                invariant
                    i <= constructors@.len(),
                    views(associated@) == s0 + crate::resolver::ctor_names(constructors@.subrange(0, i as int), name@, prefix@),
                decreases constructors.len() - i,
            {
                assert(constructors@.subrange(0, i + 1).drop_last() =~= constructors@.subrange(0, i as int));
                let c = &constructors[i];
                push_view(&mut associated, copy_string(&c.name));
                let qc = dot_join(name, c.name.as_str());
                push_view(&mut associated, copy_string(&qc));
                push_opt_prefixed(&mut associated, prefix, &qc);
                assert(views(associated@) =~= s0 + crate::resolver::ctor_names(constructors@.subrange(0, i + 1), name@, prefix@));
                i += 1;
            }
            assert(constructors@.subrange(0, i as int) =~= constructors@);
            let qa = copy_string(&q);
            let ghost ae = (qa, associated);
            assoc.push((qa, associated));
            assert(entries_view(assoc@) =~= entries_view(a0).push((ae.0@, views(ae.1@))));
            let names: Vec<String> = Vec::new();
            assert(name_set(names@) =~= Set::<Seq<char>>::empty());
            let ghost re = (q, names);
            refs.push((q, names));
            assert(ref_view(refs@) =~= ref_view(r0).push((re.0@, name_set(re.1@))));
            assert(ref_view(refs@) =~= ref_view(r0) + decl_ref_entries(*decl, prefix@));
            assert(entries_view(assoc@) =~= entries_view(a0) + decl_assoc_entries(*decl, prefix@));
        },
        Decl::StructDef { name, fields } => {
            let q = qualified_name(prefix, name);
            let mut associated: Vec<String> = Vec::new();
            assert(views(associated@) =~= Seq::<Seq<char>>::empty());
            push_view(&mut associated, copy_string(&q));
            let mk = dot_join(name, "mk");
            push_view(&mut associated, copy_string(&mk));
            push_opt_prefixed(&mut associated, prefix, &mk);
            let ghost s0 = views(associated@);
            assert(s0 =~= seq![q@, dotted(name@, "mk"@)] + crate::resolver::opt_prefixed(prefix@, dotted(name@, "mk"@)));
            let mut i: usize = 0;
            while i < fields.len()
                invariant
                    i <= fields@.len(),
                    views(associated@) == s0 + crate::resolver::field_names(fields@.subrange(0, i as int), name@, prefix@),
                decreases fields.len() - i,
            {
                assert(fields@.subrange(0, i + 1).drop_last() =~= fields@.subrange(0, i as int));
                let qf = dot_join(name, fields[i].0.as_str());
                push_view(&mut associated, copy_string(&qf));
                push_opt_prefixed(&mut associated, prefix, &qf);
                assert(views(associated@) =~= s0 + crate::resolver::field_names(fields@.subrange(0, i + 1), name@, prefix@));
                i += 1;
            }
            assert(fields@.subrange(0, i as int) =~= fields@);
            let qa = copy_string(&q);
            let ghost ae = (qa, associated);
            assoc.push((qa, associated));
            assert(entries_view(assoc@) =~= entries_view(a0).push((ae.0@, views(ae.1@))));
            let names: Vec<String> = Vec::new();
            assert(name_set(names@) =~= Set::<Seq<char>>::empty());
            let ghost re = (q, names);
            refs.push((q, names));
            assert(ref_view(refs@) =~= ref_view(r0).push((re.0@, name_set(re.1@))));
            assert(ref_view(refs@) =~= ref_view(r0) + decl_ref_entries(*decl, prefix@));
            assert(entries_view(assoc@) =~= entries_view(a0) + decl_assoc_entries(*decl, prefix@));
        },
        Decl::Namespace { name, decls: inner } => {
            let q = qualified_name(prefix, name);
            assert(decreases_to!(*decl => (*decl)->Namespace_decls));
            collect_reachable_decls(inner, &q, refs, assoc);
            let ghost a1 = assoc@;
            let mut associated: Vec<String> = Vec::new();
            assert(views(associated@) =~= Seq::<Seq<char>>::empty());
            push_view(&mut associated, copy_string(&q));
            let ghost s0 = views(associated@);
            assert(s0 =~= seq![q@]);
            let mut i: usize = 0;
            while i < inner.len()
                invariant
                    i <= inner@.len(),
                    views(associated@) == s0 + inner_qualified(inner@.subrange(0, i as int), q@),
                decreases inner.len() - i,
            {
                assert(inner@.subrange(0, i + 1).drop_last() =~= inner@.subrange(0, i as int));
                match &inner[i] {
                    Decl::FunDef { name: n, .. } | Decl::FunDefMatch { name: n, .. } | Decl::InductiveDef { name: n, .. } | Decl::StructDef { name: n, .. } | Decl::Namespace { name: n, .. } => {
                        push_view(&mut associated, dot_join(&q, n.as_str()));
                    },
                    _ => {},
                }
                assert(views(associated@) =~= s0 + inner_qualified(inner@.subrange(0, i + 1), q@));
                i += 1;
            }
            assert(inner@.subrange(0, i as int) =~= inner@);
            let ghost ae = (q, associated);
            assoc.push((q, associated));
            assert(entries_view(assoc@) =~= entries_view(a1).push((ae.0@, views(ae.1@))));
            assert(entries_view(assoc@) =~= entries_view(a0) + decl_assoc_entries(*decl, prefix@));
        },
        _ => {
            assert(ref_view(refs@) =~= ref_view(r0) + decl_ref_entries(*decl, prefix@));
            assert(entries_view(assoc@) =~= entries_view(a0) + decl_assoc_entries(*decl, prefix@));
        },
    }
}

/// Records what the declarations refer to and what comes with them.
fn collect_reachable_decls(
    decls: &Vec<Decl>,
    prefix: &String,
    refs: &mut Vec<(String, Vec<String>)>,
    assoc: &mut Vec<(String, Vec<String>)>,
)
    ensures
        ref_view(final(refs)@) == ref_view(old(refs)@) + decls_ref_entries(decls@, prefix@),
        entries_view(final(assoc)@) == entries_view(old(assoc)@) + decls_assoc_entries(decls@, prefix@),
    decreases decls, 0nat,
{
    let mut i: usize = 0;
    while i < decls.len()
        invariant
            i <= decls@.len(),
            ref_view(refs@) == ref_view(old(refs)@) + decls_ref_entries(decls@.subrange(0, i as int), prefix@),
            entries_view(assoc@) == entries_view(old(assoc)@) + decls_assoc_entries(decls@.subrange(0, i as int), prefix@),
        decreases decls.len() - i,
    {
        proof {
            assert(decreases_to!(*decls => decls[i as int]));
            assert(decls@.subrange(0, i + 1).subrange(0, i as int) =~= decls@.subrange(0, i as int));
        }
        collect_reachable_decl(&decls[i], prefix, refs, assoc);
        assert(ref_view(refs@) =~= ref_view(old(refs)@) + decls_ref_entries(decls@.subrange(0, i + 1), prefix@));
        assert(entries_view(assoc@) =~= entries_view(old(assoc)@) + decls_assoc_entries(decls@.subrange(0, i + 1), prefix@));
        i += 1;
    }
    assert(decls@.subrange(0, i as int) =~= decls@);
}

/// Every name listed in a table's entries.
pub open spec fn all_values(v: Seq<(String, Vec<String>)>) -> Seq<Seq<char>>
    decreases v.len(),
{
    if v.len() == 0 {
        seq![]
    } else {
        all_values(v.drop_last()) + views(v.last().1@)
    }
}

proof fn lemma_all_values(v: Seq<(String, Vec<String>)>, k: int, j: int)
    requires
        0 <= k < v.len(),
        0 <= j < v[k].1@.len(),
    ensures
        all_values(v).contains(v[k].1@[j]@),
    decreases v.len(),
{
    if k < v.len() - 1 {
        lemma_all_values(v.drop_last(), k, j);
        let i = choose|i: int| 0 <= i < all_values(v.drop_last()).len() && all_values(v.drop_last())[i] == v[k].1@[j]@;
        assert(all_values(v)[i] == v[k].1@[j]@);
    } else {
        let p = all_values(v.drop_last()).len();
        assert(all_values(v)[p + j] == views(v.last().1@)[j]);
    }
}

/// The reference table's latest entry, as a set, matches the latest entry
/// of the same table read as lists.
proof fn lemma_latest_refs(v: Seq<(String, Vec<String>)>, key: Seq<char>)
    ensures
        match latest(entries_view(v), key) {
            Some(s) => latest_set(ref_view(v), key) == Some(s.to_set()),
            None => latest_set(ref_view(v), key) is None,
        },
    decreases v.len(),
{
    if v.len() > 0 {
        assert(entries_view(v).drop_last() =~= entries_view(v.drop_last()));
        assert(ref_view(v).drop_last() =~= ref_view(v.drop_last()));
        lemma_latest_refs(v.drop_last(), key);
    }
}

/// Whether a program has an entry point.
fn has_entry(decls: &Vec<Decl>) -> (r: bool)
    ensures
        r == has_entry_point(decls@),
{
    let mut i: usize = 0;
    while i < decls.len()
        invariant
            i <= decls@.len(),
            forall|j: int| 0 <= j < i ==> !(is_main_def(#[trigger] decls@[j]) || decls@[j] is Eval),
        decreases decls.len() - i,
    {
        let hit = match &decls[i] {
            Decl::FunDef { name, .. } | Decl::FunDefMatch { name, .. } => crate::text::str_is(name.as_str(), "main"),
            Decl::Eval(_) => true,
            _ => false,
        };
        if hit {
            assert(is_main_def(decls@[i as int]) || decls@[i as int] is Eval);
            return true;
        }
        i += 1;
    }
    false
}

/// Adds the names of all declarations, namespaces' members included.
fn collect_all_names(decls: &Vec<Decl>, all: &mut Vec<String>)
    ensures
        name_set(final(all)@) == name_set(old(all)@).union(all_decl_names(decls@)),
    decreases decls,
{
    let mut i: usize = 0;
    while i < decls.len()
        invariant
            i <= decls@.len(),
            name_set(all@) == name_set(old(all)@).union(all_decl_names(decls@.subrange(0, i as int))),
        decreases decls.len() - i,
    {
        proof {
            assert(decreases_to!(*decls => decls[i as int]));
            assert(decls@.subrange(0, i + 1).subrange(0, i as int) =~= decls@.subrange(0, i as int));
        }
        let ghost a0 = name_set(all@);
        match &decls[i] {
            Decl::FunDef { name, .. } | Decl::FunDefMatch { name, .. } | Decl::InductiveDef { name, .. } | Decl::StructDef { name, .. } => {
                add_name(all, copy_string(name));
            },
            Decl::Namespace { name, decls: inner } => {
                add_name(all, copy_string(name));
                assert(decreases_to!(decls[i as int] => decls[i as int]->Namespace_decls));
                collect_all_names(inner, all);
            },
            _ => {},
        }
        assert(name_set(all@) =~= name_set(old(all)@).union(all_decl_names(decls@.subrange(0, i + 1))));
        i += 1;
    }
    assert(decls@.subrange(0, i as int) =~= decls@);
}

/// Marks a name reachable (and to be visited) unless it already is.
fn reach(reachable: &mut Vec<String>, worklist: &mut Vec<String>, x: &String)
    requires
        views(old(reachable)@).no_duplicates(),
    ensures
        views(final(reachable)@).no_duplicates(),
        name_set(final(reachable)@) == name_set(old(reachable)@).insert(x@),
        name_set(final(worklist)@) == if name_set(old(reachable)@).contains(x@) {
            name_set(old(worklist)@)
        } else {
            name_set(old(worklist)@).insert(x@)
        },
        final(worklist)@.len() == old(worklist)@.len() + if name_set(old(reachable)@).contains(x@) { 0int } else { 1int },
        final(reachable)@.len() == old(reachable)@.len() + if name_set(old(reachable)@).contains(x@) { 0int } else { 1int },
{
    proof {
        assert(name_set(reachable@) == views(reachable@).to_set());
    }
    if !contains_name(reachable, x.as_str()) {
        let ghost r0 = views(reachable@);
        let a = copy_string(x);
        let b = copy_string(x);
        proof {
            lemma_name_set_push(reachable@, a);
            lemma_name_set_push(worklist@, b);
            crate::resolver::lemma_views_push(reachable@, a);
        }
        reachable.push(a);
        worklist.push(b);
        proof {
            assert(views(reachable@) =~= r0.push(x@));
            assert forall|i: int, k: int| 0 <= i < views(reachable@).len() && 0 <= k < views(reachable@).len() && i != k implies views(reachable@)[i] != views(reachable@)[k] by {
                if k == r0.len() {
                    assert(r0.contains(r0[i]));
                } else if i == r0.len() {
                    assert(r0.contains(r0[k]));
                }
            }
        }
    } else {
        assert(name_set(reachable@) =~= name_set(old(reachable)@).insert(x@));
    }
}

/// The names reachable from the program's entry points (every declared name
/// when it has none).
fn collect_reachable(decls: &Vec<Decl>) -> (r: Vec<String>)
    ensures
        name_set(r@) == reachable_names(decls@),
{
    let ghost ds = decls@;
    let mut refs: Vec<(String, Vec<String>)> = Vec::new();
    let mut assoc: Vec<(String, Vec<String>)> = Vec::new();
    let empty = String::new();
    collect_reachable_decls(decls, &empty, &mut refs, &mut assoc);
    assert(ref_view(refs@) =~= decls_ref_entries(ds, seq![]));
    assert(entries_view(assoc@) =~= decls_assoc_entries(ds, seq![]));
    if !has_entry(decls) {
        let mut all: Vec<String> = Vec::new();
        collect_all_names(decls, &mut all);
        assert(name_set(all@) =~= reachable_names(ds));
        return all;
    }
    let ghost big_l = reachable_names(ds);
    let mut reachable: Vec<String> = Vec::new();
    let mut worklist: Vec<String> = Vec::new();
    assert(name_set(reachable@) =~= Set::<Seq<char>>::empty());
    assert(name_set(worklist@) =~= Set::<Seq<char>>::empty());
    let mut i: usize = 0;
    while i < decls.len()
        invariant
            i <= decls@.len(),
            ds == decls@,
            views(reachable@).no_duplicates(),
            name_set(reachable@) == root_names(ds.subrange(0, i as int)),
            name_set(worklist@) == name_set(reachable@),
        decreases decls.len() - i,
    {
        assert(ds.subrange(0, i + 1).drop_last() =~= ds.subrange(0, i as int));
        let ghost r0 = name_set(reachable@);
        match &decls[i] {
            Decl::FunDef { name, .. } | Decl::FunDefMatch { name, .. } => {
                if crate::text::str_is(name.as_str(), "main") {
                    reach(&mut reachable, &mut worklist, name);
                }
            },
            Decl::Eval(expr) => {
                let mut refs_e: Vec<String> = Vec::new();
                assert(name_set(refs_e@) =~= Set::<Seq<char>>::empty());
                collect_names_expr(expr, &mut refs_e);
                let mut k: usize = 0;
                while k < refs_e.len()
                    invariant
                        k <= refs_e@.len(),
                        views(reachable@).no_duplicates(),
                        name_set(reachable@) == r0.union(views(refs_e@).subrange(0, k as int).to_set()),
                        name_set(worklist@) == name_set(reachable@),
                    decreases refs_e.len() - k,
                {
                    reach(&mut reachable, &mut worklist, &refs_e[k]);
                    assert(views(refs_e@).subrange(0, k + 1) =~= views(refs_e@).subrange(0, k as int).push(refs_e@[k as int]@));
                    proof {
                        views(refs_e@).subrange(0, k as int).lemma_push_to_set_commute(refs_e@[k as int]@);
                    }
                    assert(name_set(reachable@) =~= r0.union(views(refs_e@).subrange(0, k + 1).to_set()));
                    k += 1;
                }
                assert(views(refs_e@).subrange(0, k as int) =~= views(refs_e@));
            },
            Decl::Import { path } => {
                if path.segments.len() > 0 {
                    reach(&mut reachable, &mut worklist, &path.segments[path.segments.len() - 1]);
                }
            },
            Decl::Open { path } => {
                let mut joined = String::new();
                crate::ast::push_joined(&mut joined, &path.segments, '.');
                reach(&mut reachable, &mut worklist, &joined);
                if path.segments.len() == 1 {
                    reach(&mut reachable, &mut worklist, &path.segments[0]);
                }
            },
            _ => {},
        }
        assert(name_set(reachable@) =~= root_names(ds.subrange(0, i + 1)));
        i += 1;
    }
    assert(ds.subrange(0, i as int) =~= ds);
    let ghost roots_seq = views(reachable@);
    let ghost useq = roots_seq + all_values(refs@) + all_values(assoc@);
    proof {
        assert forall|n: Seq<char>| name_set(reachable@).contains(n) implies big_l.contains(n) by {
            assert forall|s: Set<Seq<char>>| root_names(ds).subset_of(s) && closed_under(ds, s) implies #[trigger] s.contains(n) by {
                assert(root_names(ds).contains(n));
            }
        }
        assert forall|n: Seq<char>| name_set(reachable@).contains(n) implies useq.to_set().contains(n) by {
            let j = choose|j: int| 0 <= j < roots_seq.len() && roots_seq[j] == n;
            assert(useq[j] == n);
        }
    }
    while worklist.len() > 0
        invariant
            ds == decls@,
            big_l == reachable_names(ds),
            has_entry_point(ds),
            ref_view(refs@) == decls_ref_entries(ds, seq![]),
            entries_view(assoc@) == decls_assoc_entries(ds, seq![]),
            useq == roots_seq + all_values(refs@) + all_values(assoc@),
            views(reachable@).no_duplicates(),
            name_set(reachable@).subset_of(big_l),
            name_set(reachable@).subset_of(useq.to_set()),
            root_names(ds).subset_of(name_set(reachable@)),
            name_set(worklist@).subset_of(name_set(reachable@)),
            forall|n: Seq<char>| name_set(reachable@).contains(n) && !name_set(worklist@).contains(n) ==> #[trigger] successors(ds, n).subset_of(name_set(reachable@)),
            reachable@.len() <= useq.len(),
        decreases useq.len() - reachable@.len(), worklist@.len(),
    {
        let ghost r_before = name_set(reachable@);
        let ghost w_before = worklist@;
        let ghost rlen0 = reachable@.len();
        let name = worklist.pop().unwrap();
        proof {
            assert(w_before =~= worklist@.push(name));
            lemma_name_set_push(worklist@, name);
        }
        let ghost w_rest = name_set(worklist@);
        let ghost wlen0 = worklist@.len();
        proof {
            lemma_latest_refs(refs@, name@);
        }
        let ghost mut refs_part: Set<Seq<char>> = Set::empty();
        match latest_index(&refs, name.as_str()) {
            Some(k) => {
                proof {
                    refs_part = views(refs@[k as int].1@).to_set();
                    assert forall|x: Seq<char>| refs_part.contains(x) implies useq.to_set().contains(x) by {
                        let j = choose|j: int| 0 <= j < views(refs@[k as int].1@).len() && views(refs@[k as int].1@)[j] == x;
                        lemma_all_values(refs@, k as int, j);
                        let t = choose|t: int| 0 <= t < all_values(refs@).len() && all_values(refs@)[t] == x;
                        assert(useq[roots_seq.len() + t] == x);
                    }
                }
                reach_all(&mut reachable, &mut worklist, &refs[k].1);
            },
            None => {},
        }
        let ghost r_mid = name_set(reachable@);
        let ghost mut assoc_part: Set<Seq<char>> = Set::empty();
        match latest_index(&assoc, name.as_str()) {
            Some(k) => {
                proof {
                    assoc_part = views(assoc@[k as int].1@).to_set();
                    assert forall|x: Seq<char>| assoc_part.contains(x) implies useq.to_set().contains(x) by {
                        let j = choose|j: int| 0 <= j < views(assoc@[k as int].1@).len() && views(assoc@[k as int].1@)[j] == x;
                        lemma_all_values(assoc@, k as int, j);
                        let t = choose|t: int| 0 <= t < all_values(assoc@).len() && all_values(assoc@)[t] == x;
                        assert(useq[roots_seq.len() + all_values(refs@).len() + t] == x);
                    }
                }
                reach_all(&mut reachable, &mut worklist, &assoc[k].1);
            },
            None => {},
        }
        proof {
            let r_now = name_set(reachable@);
            let w_now = name_set(worklist@);
            assert(successors(ds, name@) =~= refs_part.union(assoc_part));
            assert(r_now =~= r_before.union(refs_part).union(assoc_part));
            assert(w_now =~= w_rest.union(r_now.difference(r_before)));
            assert(r_before.contains(name@));
            assert(big_l.contains(name@));
            assert forall|n: Seq<char>| r_now.contains(n) implies big_l.contains(n) && useq.to_set().contains(n) by {
                if !r_before.contains(n) {
                    assert(successors(ds, name@).contains(n));
                    assert forall|s: Set<Seq<char>>| root_names(ds).subset_of(s) && closed_under(ds, s) implies #[trigger] s.contains(n) by {
                        assert(s.contains(name@));
                        assert(successors(ds, name@).subset_of(s));
                    }
                }
            }
            assert forall|n: Seq<char>| r_now.contains(n) && !w_now.contains(n) implies #[trigger] successors(ds, n).subset_of(r_now) by {
                if n != name@ {
                    assert(r_before.contains(n));
                    assert(!name_set(w_before).contains(n));
                    assert(successors(ds, n).subset_of(r_before));
                }
            }
            views(reachable@).unique_seq_to_set();
            vstd::set_lib::lemma_len_subset(r_now, useq.to_set());
            useq.lemma_cardinality_of_set();
        }
    }
    proof {
        let r = name_set(reachable@);
        assert(closed_under(ds, r));
        assert forall|n: Seq<char>| big_l.contains(n) implies r.contains(n) by {
            assert(root_names(ds).subset_of(r) && closed_under(ds, r));
        }
        assert(r =~= big_l);
    }
    reachable
}

/// Marks each of `vals` reachable (and to be visited) unless it already is.
fn reach_all(reachable: &mut Vec<String>, worklist: &mut Vec<String>, vals: &Vec<String>)
    requires
        views(old(reachable)@).no_duplicates(),
    ensures
        views(final(reachable)@).no_duplicates(),
        name_set(final(reachable)@) == name_set(old(reachable)@).union(views(vals@).to_set()),
        name_set(final(worklist)@) == name_set(old(worklist)@).union(
            name_set(final(reachable)@).difference(name_set(old(reachable)@)),
        ),
        final(reachable)@.len() >= old(reachable)@.len(),
        final(worklist)@.len() - old(worklist)@.len() == final(reachable)@.len() - old(reachable)@.len(),
{
    let mut j: usize = 0;
    while j < vals.len()
        invariant
            j <= vals@.len(),
            views(reachable@).no_duplicates(),
            name_set(reachable@) == name_set(old(reachable)@).union(views(vals@).subrange(0, j as int).to_set()),
            name_set(worklist@) == name_set(old(worklist)@).union(
                name_set(reachable@).difference(name_set(old(reachable)@)),
            ),
            reachable@.len() >= old(reachable)@.len(),
            worklist@.len() - old(worklist)@.len() == reachable@.len() - old(reachable)@.len(),
        decreases vals.len() - j,
    {
        let ghost r0 = name_set(reachable@);
        let ghost w0 = name_set(worklist@);
        reach(reachable, worklist, &vals[j]);
        assert(views(vals@).subrange(0, j + 1) =~= views(vals@).subrange(0, j as int).push(vals@[j as int]@));
        proof {
            views(vals@).subrange(0, j as int).lemma_push_to_set_commute(vals@[j as int]@);
        }
        assert(name_set(reachable@) =~= name_set(old(reachable)@).union(views(vals@).subrange(0, j + 1).to_set()));
        assert(name_set(worklist@) =~= name_set(old(worklist)@).union(name_set(reachable@).difference(name_set(old(reachable)@))));
        j += 1;
    }
    assert(views(vals@).subrange(0, j as int) =~= views(vals@));
}

// ---------------------------------------------------------------------------
// Whole programs
// ---------------------------------------------------------------------------

/// The name a declaration is kept or dropped by.
pub open spec fn decl_label(d: Decl) -> Option<Seq<char>> {
    match d {
        Decl::FunDef { name, .. } => Some(name@),
        Decl::FunDefMatch { name, .. } => Some(name@),
        Decl::InductiveDef { name, .. } => Some(name@),
        Decl::StructDef { name, .. } => Some(name@),
        Decl::Namespace { name, .. } => Some(name@),
        _ => None,
    }
}

/// The code of the declarations that are kept, each followed by an empty
/// line; `#eval`s are left for `main`.
pub open spec fn body_code(info: GenInfo, ds: Seq<Decl>, keep: Set<Seq<char>>) -> Seq<char>
    decreases ds.len(),
{
    if ds.len() == 0 {
        seq![]
    } else {
        let d = ds.last();
        body_code(info, ds.drop_last(), keep) + if d is Eval {
            seq![]
        } else if decl_label(d) is Some && !keep.contains(decl_label(d)->0) {
            seq![]
        } else {
            decl_code(info, d, 0, false) + "\n"@
        }
    }
}

/// The expressions of the `#eval`s, in order.
pub open spec fn evals_of(ds: Seq<Decl>) -> Seq<Expr>
    decreases ds.len(),
{
    if ds.len() == 0 {
        seq![]
    } else {
        evals_of(ds.drop_last()) + match ds.last() {
            Decl::Eval(e) => seq![e],
            _ => seq![],
        }
    }
}

/// Whether a program defines `main`.
pub open spec fn has_main_def(ds: Seq<Decl>) -> bool {
    exists|i: int| 0 <= i < ds.len() && is_main_def(#[trigger] ds[i])
}

/// One `println!` per evaluated expression, at level one.
pub open spec fn evals_code(info: GenInfo, es: Seq<Expr>) -> Seq<char>
    decreases es.len(),
{
    if es.len() == 0 {
        seq![]
    } else {
        evals_code(info, es.drop_last()) + indent_text(1) + "println!(\"{}\", "@ + expr_code(info, es.last(), 1)
            + ");\n"@
    }
}

/// The `main` that prints the `#eval`s, when the program has some and does
/// not define `main` itself.
pub open spec fn eval_main_code(info: GenInfo, ds: Seq<Decl>) -> Seq<char> {
    if evals_of(ds).len() > 0 && !has_main_def(ds) {
        "fn main() {"@ + "\n"@ + evals_code(info, evals_of(ds)) + "}"@ + "\n"@
    } else {
        seq![]
    }
}

/// The Rust code of a program, given the generator's tables.
pub open spec fn program_code(info: GenInfo, ds: Seq<Decl>) -> Seq<char> {
    body_code(info, ds, reachable_names(ds)) + eval_main_code(info, ds)
}

/// Whether a program defines `main`.
fn defines_main(decls: &Vec<Decl>) -> (r: bool)
    ensures
        r == has_main_def(decls@),
{
    let mut i: usize = 0;
    while i < decls.len()
        invariant
            i <= decls@.len(),
            forall|j: int| 0 <= j < i ==> !is_main_def(#[trigger] decls@[j]),
        decreases decls.len() - i,
    {
        let hit = match &decls[i] {
            Decl::FunDef { name, .. } | Decl::FunDefMatch { name, .. } => crate::text::str_is(name.as_str(), "main"),
            _ => false,
        };
        if hit {
            assert(is_main_def(decls@[i as int]));
            return true;
        }
        i += 1;
    }
    false
}

/// Whether a program has an `#eval`.
fn has_evals(decls: &Vec<Decl>) -> (r: bool)
    ensures
        r == (evals_of(decls@).len() > 0),
{
    let mut i: usize = 0;
    while i < decls.len()
        invariant
            i <= decls@.len(),
            evals_of(decls@.subrange(0, i as int)).len() == 0,
        decreases decls.len() - i,
    {
        assert(decls@.subrange(0, i + 1).drop_last() =~= decls@.subrange(0, i as int));
        if matches!(&decls[i], Decl::Eval(_)) {
            proof {
                lemma_evals_prefix(decls@, i + 1);
            }
            return true;
        }
        i += 1;
    }
    assert(decls@.subrange(0, i as int) =~= decls@);
    false
}

/// A prefix has no more `#eval`s than the whole.
proof fn lemma_evals_prefix(ds: Seq<Decl>, n: int)
    requires
        0 <= n <= ds.len(),
    ensures
        evals_of(ds.subrange(0, n)).len() <= evals_of(ds).len(),
    decreases ds.len(),
{
    if n < ds.len() {
        lemma_evals_prefix(ds.drop_last(), n);
        assert(ds.drop_last().subrange(0, n) =~= ds.subrange(0, n));
    } else {
        assert(ds.subrange(0, n) =~= ds);
    }
}

impl CodeGen {
    /// Generates the Rust code of a program: its declarations that the entry
    /// points reach (all of them without an entry point), then a `main` that
    /// prints each `#eval` when the program defines no `main`. The output is
    /// appended to what earlier calls emitted, and returned whole.
    pub fn generate(&mut self, decls: &Vec<Decl>) -> (r: LustcResult<String>)
        requires
            old(self).wf(),
        ensures
            final(self).wf(),
            final(self).info() == info_collect(old(self).info(), decls@, seq![]),
            final(self).emitted() == old(self).emitted() + program_code(final(self).info(), decls@),
            r matches Ok(out) && out@ == final(self).emitted(),
    {
        let reachable = collect_reachable(decls);
        let empty = String::new();
        self.collect_all_info(decls, &empty);
        let ghost info = self.info();
        let ghost keep = reachable_names(decls@);
        let has_main = defines_main(decls);
        let ghost start = self.output@;
        let mut i: usize = 0;
        while i < decls.len()
            invariant
                i <= decls@.len(),
                self.wf(),
                self.info() == info,
                name_set(reachable@) == keep,
                self.output@ == start + body_code(info, decls@.subrange(0, i as int), keep),
            decreases decls.len() - i,
        {
            assert(decls@.subrange(0, i + 1).drop_last() =~= decls@.subrange(0, i as int));
            let d = &decls[i];
            let label: Option<&String> = match d {
                Decl::FunDef { name, .. } | Decl::FunDefMatch { name, .. } | Decl::InductiveDef { name, .. } | Decl::StructDef { name, .. } | Decl::Namespace { name, .. } => Some(name),
                _ => None,
            };
            let skip = match label {
                Some(n) => !contains_name(&reachable, n.as_str()),
                None => false,
            };
            if !matches!(d, Decl::Eval(_)) && !skip {
                self.gen_decl(d, false);
                self.output.append("\n");
            }
            i += 1;
        }
        assert(decls@.subrange(0, i as int) =~= decls@);
        if has_evals(decls) && !has_main {
            self.emit_line("fn main() {");
            self.deeper();
            let ghost mid = self.output@;
            let mut k: usize = 0;
            while k < decls.len()
                invariant
                    k <= decls@.len(),
                    self.level() == 1,
                    self.indent@.len() == 1,
                    self.info() == info,
                    self.output@ == mid + evals_code(info, evals_of(decls@.subrange(0, k as int))),
                decreases decls.len() - k,
            {
                assert(decls@.subrange(0, k + 1).drop_last() =~= decls@.subrange(0, k as int));
                match &decls[k] {
                    Decl::Eval(e) => {
                        let ghost o0 = self.output@;
                        self.emit_indent();
                        self.output.append("println!(\"{}\", ");
                        self.gen_expr(e);
                        self.output.append(");\n");
                        let ghost es = evals_of(decls@.subrange(0, k as int));
                        assert(evals_of(decls@.subrange(0, k + 1)) =~= es.push(*e));
                        assert(es.push(*e).drop_last() =~= es);
                        assert(self.output@ =~= o0 + indent_text(1) + "println!(\"{}\", "@ + expr_code(info, *e, 1) + ");\n"@);
                    },
                    _ => {
                        assert(evals_of(decls@.subrange(0, k + 1)) =~= evals_of(decls@.subrange(0, k as int)));
                    },
                }
                k += 1;
            }
            assert(decls@.subrange(0, k as int) =~= decls@);
            self.shallower();
            self.emit_line("}");
        }
        Ok(copy_string(&self.output))
    }
}

// ---------------------------------------------------------------------------
// Laws
// ---------------------------------------------------------------------------

proof fn lemma_lower_not_upper(c: char)
    requires
        is_ascii_upper(c),
    ensures
        !is_ascii_upper(ascii_lower(c)),
        ascii_lower(c) != '_',
{
    assert(('A' as u32) <= (c as u32) <= ('Z' as u32));
    assert((((c as u32) + 32) as char) as u32 == (c as u32) + 32);
}

proof fn lemma_upper_not_underscore(c: char)
    requires
        c != '_',
    ensures
        ascii_upper(c) != '_',
{
    if is_ascii_lower(c) {
        assert((((c as u32) - 32) as char) as u32 == (c as u32) - 32);
    }
}

/// No ASCII capital is left in a `snake_case` name.
proof fn lemma_snake_no_upper(s: Seq<char>)
    ensures
        forall|i: int| 0 <= i < snake(s).len() ==> !is_ascii_upper(#[trigger] snake(s)[i]),
    decreases s.len(),
{
    if s.len() > 0 {
        lemma_snake_no_upper(s.drop_last());
        let c = s.last();
        if is_ascii_upper(c) {
            lemma_lower_not_upper(c);
        }
        let p = snake(s.drop_last());
        assert forall|i: int| 0 <= i < snake(s).len() implies !is_ascii_upper(#[trigger] snake(s)[i]) by {
            if i < p.len() {
                assert(snake(s)[i] == p[i]);
            }
        }
    }
}

/// A name without ASCII capitals is its own `snake_case`.
proof fn lemma_snake_fixed(s: Seq<char>)
    requires
        forall|i: int| 0 <= i < s.len() ==> !is_ascii_upper(#[trigger] s[i]),
    ensures
        snake(s) == s,
    decreases s.len(),
{
    if s.len() > 0 {
        assert forall|i: int| 0 <= i < s.drop_last().len() implies !is_ascii_upper(#[trigger] s.drop_last()[i]) by {
            assert(s.drop_last()[i] == s[i]);
        }
        lemma_snake_fixed(s.drop_last());
        assert(!is_ascii_upper(s[s.len() - 1]));
        assert(s.drop_last().push(s.last()) =~= s);
    }
}

/// `snake_case` leaves no ASCII capital, so applying it twice changes
/// nothing more.
pub proof fn law_snake_case_idempotent(s: Seq<char>)
    ensures
        forall|i: int| 0 <= i < snake(s).len() ==> !is_ascii_upper(#[trigger] snake(s)[i]),
        snake(snake(s)) == snake(s),
{
    lemma_snake_no_upper(s);
    lemma_snake_fixed(snake(s));
}

/// A `PascalCase` name has no underscores.
pub proof fn law_pascal_case_no_underscore(s: Seq<char>)
    ensures
        !pascal(s).contains('_'),
    decreases s.len(),
{
    if s.len() > 0 {
        law_pascal_case_no_underscore(s.drop_last());
        let c = s.last();
        if c != '_' {
            lemma_upper_not_underscore(c);
        }
        let p = pascal(s.drop_last());
        assert forall|i: int| 0 <= i < pascal(s).len() implies pascal(s)[i] != '_' by {
            if i < p.len() {
                assert(pascal(s)[i] == p[i]);
                assert(!p.contains('_'));
                if p[i] == '_' {
                    assert(p.contains(p[i]));
                }
            }
        }
    }
}

/// `s` with its first character capitalised (ASCII letters only).
pub open spec fn capitalize(s: Seq<char>) -> Seq<char> {
    if s.len() == 0 {
        s
    } else {
        s.update(0, ascii_upper(s[0]))
    }
}

/// Capitalising an ASCII capital's small letter gives the capital back.
proof fn lemma_upper_of_lower(c: char)
    ensures
        is_ascii_upper(c) ==> ascii_upper(ascii_lower(c)) == c,
        !is_ascii_upper(c) ==> ascii_lower(c) == c,
{
    if is_ascii_upper(c) {
        assert((((c as u32) + 32) as char) as u32 == (c as u32) + 32);
        assert(is_ascii_lower(ascii_lower(c)));
        assert((((((c as u32) + 32) as char) as u32 - 32) as char) as u32 == c as u32);
    }
}

/// The snake case of a name without `_` is empty only for the empty name, and
/// does not end in `_`.
proof fn lemma_snake_end(s: Seq<char>)
    requires
        !s.contains('_'),
    ensures
        snake(s).len() == 0 <==> s.len() == 0,
        snake(s).len() > 0 ==> snake(s).last() != '_',
{
    if s.len() > 0 {
        let c = s.last();
        assert(s.contains(c));
        lemma_upper_of_lower(c);
        if is_ascii_upper(c) {
            assert(ascii_lower(c) != '_') by {
                assert((((c as u32) + 32) as char) as u32 == (c as u32) + 32);
            }
        }
    }
}

/// Back from snake case: for a name without `_`, converting to snake case and
/// then to Pascal case gives the name with its first character capitalised
/// (`circleArea` gives `circle_area`, then `CircleArea`).
pub proof fn law_snake_then_pascal(s: Seq<char>)
    requires
        !s.contains('_'),
    ensures
        pascal(snake(s)) == capitalize(s),
    decreases s.len(),
{
    if s.len() > 0 {
        let p = s.drop_last();
        let c = s.last();
        assert(s.contains(c));
        assert(!p.contains('_')) by {
            if p.contains('_') {
                let i = choose|i: int| 0 <= i < p.len() && p[i] == '_';
                assert(s[i] == '_');
            }
        }
        law_snake_then_pascal(p);
        lemma_snake_end(p);
        lemma_upper_of_lower(c);
        let x = snake(p);
        if is_ascii_upper(c) {
            if p.len() > 0 {
                assert(snake(s) == x + seq!['_', ascii_lower(c)]);
                assert((x + seq!['_', ascii_lower(c)]).drop_last() =~= x.push('_'));
                assert(x.push('_').drop_last() =~= x);
                assert(pascal(x.push('_')) == pascal(x));
                assert(pascal(snake(s)) == pascal(x).push(c));
                assert(capitalize(s) =~= capitalize(p).push(c));
            } else {
                assert(snake(s) =~= seq![ascii_lower(c)]);
                assert(seq![ascii_lower(c)].drop_last() =~= Seq::<char>::empty());
                assert(capitalize(s) =~= seq![c]);
            }
        } else {
            assert(snake(s) == x + seq![c]);
            assert((x + seq![c]).drop_last() =~= x);
            if p.len() > 0 {
                assert(pascal(snake(s)) == pascal(x).push(c));
                assert(capitalize(s) =~= capitalize(p).push(c));
            } else {
                assert(seq![c].drop_last() =~= Seq::<char>::empty());
                assert(capitalize(s) =~= seq![ascii_upper(c)]);
            }
        }
    } else {
        assert(snake(s) =~= seq![]);
    }
}

spec fn digit_char_of(d: nat) -> char {
    crate::text::digit_char(d)
}

/// The value of a decimal rendering is the number rendered.
proof fn lemma_decimal_value(n: nat)
    ensures
        decimal(n).len() > 0,
        forall|i: int| 0 <= i < decimal(n).len() ==> crate::lexer::is_digit(#[trigger] decimal(n)[i]),
        crate::lexer::digits_value(decimal(n)) == n,
    decreases n,
{
    let d: nat = n % 10;
    let c = digit_char_of(d);
    assert((c as u32) == ('0' as u32) + d) by {
        assert(d < 10);
        assert((((('0' as u32) + d) as char) as u32) == ('0' as u32) + d);
    }
    if n < 10 {
        assert(d == n);
        assert(decimal(n) == seq![c]);
        assert(decimal(n).drop_last() =~= Seq::<char>::empty());
        assert(crate::lexer::digits_value(decimal(n)) == crate::lexer::digits_value(Seq::<char>::empty()) * 10 + ((c as u32) - ('0' as u32)) as nat);
    } else {
        lemma_decimal_value(n / 10);
        assert(decimal(n) == decimal(n / 10).push(c));
        assert(decimal(n).drop_last() =~= decimal(n / 10));
        assert(crate::lexer::digits_value(decimal(n)) == crate::lexer::digits_value(decimal(n / 10)) * 10 + ((c as u32) - ('0' as u32)) as nat);
        assert((n / 10) * 10 + n % 10 == n) by (nonlinear_arith);
        assert forall|i: int| 0 <= i < decimal(n).len() implies crate::lexer::is_digit(#[trigger] decimal(n)[i]) by {
            if i < decimal(n / 10).len() {
                assert(decimal(n)[i] == decimal(n / 10)[i]);
            }
        }
    }
}

/// The last dot of `obj.digits` is the one before the digits.
proof fn lemma_last_dot_before_digits(obj: Seq<char>, ds: Seq<char>)
    requires
        forall|i: int| 0 <= i < ds.len() ==> crate::lexer::is_digit(#[trigger] ds[i]),
    ensures
        last_dot(obj + seq!['.'] + ds) == Some(obj.len() as int),
    decreases ds.len(),
{
    let s = obj + seq!['.'] + ds;
    if ds.len() == 0 {
        assert(s.last() == '.');
    } else {
        assert(!crate::lexer::is_digit('.'));
        assert(s.last() == ds.last());
        assert(s.drop_last() =~= obj + seq!['.'] + ds.drop_last());
        assert forall|i: int| 0 <= i < ds.drop_last().len() implies crate::lexer::is_digit(#[trigger] ds.drop_last()[i]) by {
            assert(ds.drop_last()[i] == ds[i]);
        }
        lemma_last_dot_before_digits(obj, ds.drop_last());
    }
}

/// Tuple fields are numbered from 1 in the source and from 0 in Rust:
/// `p.k` becomes `p.(k - 1)` for every `k` from 1 that fits a `usize`.
pub proof fn law_tuple_field_from_one(info: GenInfo, obj: Seq<char>, k: nat)
    requires
        1 <= k <= usize::MAX,
    ensures
        var_code(info, obj + seq!['.'] + decimal(k)) == snake(obj) + seq!['.'] + decimal((k - 1) as nat),
{
    let name = obj + seq!['.'] + decimal(k);
    lemma_decimal_value(k);
    lemma_last_dot_before_digits(obj, decimal(k));
    let d = obj.len() as int;
    assert(name.subrange(d + 1, name.len() as int) =~= decimal(k));
    assert(name.subrange(0, d) =~= obj);
    assert(decimal(k)[0] != '+');
    assert(unsigned_digits(decimal(k)) == decimal(k));
    assert(parses_as_usize(decimal(k)));
}

/// Dead-code elimination keeps what the entry points reach: the names they
/// start from, and everything a kept name makes reachable.
pub proof fn law_kept_names_closed(ds: Seq<Decl>)
    requires
        has_entry_point(ds),
    ensures
        root_names(ds).subset_of(reachable_names(ds)),
        closed_under(ds, reachable_names(ds)),
{
    let l = reachable_names(ds);
    assert forall|n: Seq<char>| root_names(ds).contains(n) implies l.contains(n) by {
        assert forall|s: Set<Seq<char>>| root_names(ds).subset_of(s) && closed_under(ds, s) implies #[trigger] s.contains(n) by {}
    }
    assert forall|n: Seq<char>| l.contains(n) implies #[trigger] successors(ds, n).subset_of(l) by {
        assert forall|m: Seq<char>| successors(ds, n).contains(m) implies l.contains(m) by {
            assert forall|s: Set<Seq<char>>| root_names(ds).subset_of(s) && closed_under(ds, s) implies #[trigger] s.contains(m) by {
                assert(s.contains(n));
                assert(successors(ds, n).subset_of(s));
            }
        }
    }
}

/// A program that defines `main` keeps it.
pub proof fn law_main_is_kept(ds: Seq<Decl>)
    requires
        has_main_def(ds),
    ensures
        reachable_names(ds).contains("main"@),
{
    let i = choose|i: int| 0 <= i < ds.len() && is_main_def(#[trigger] ds[i]);
    assert(has_entry_point(ds));
    lemma_main_is_root(ds, i);
    law_kept_names_closed(ds);
}

proof fn lemma_main_is_root(ds: Seq<Decl>, i: int)
    requires
        0 <= i < ds.len(),
        is_main_def(ds[i]),
    ensures
        root_names(ds).contains("main"@),
    decreases ds.len(),
{
    if i < ds.len() - 1 {
        assert(ds.drop_last()[i] == ds[i]);
        lemma_main_is_root(ds.drop_last(), i);
    }
}

} // verus!

verus! {

/// The code of every declaration but the `#eval`s, each followed by an empty
/// line, in order.
pub open spec fn all_decls_code(info: GenInfo, ds: Seq<Decl>) -> Seq<char>
    decreases ds.len(),
{
    if ds.len() == 0 {
        seq![]
    } else {
        all_decls_code(info, ds.drop_last()) + if ds.last() is Eval {
            seq![]
        } else {
            decl_code(info, ds.last(), 0, false) + "\n"@
        }
    }
}

proof fn lemma_labels_declared(ds: Seq<Decl>)
    ensures
        forall|i: int|
            0 <= i < ds.len() && decl_label(#[trigger] ds[i]) is Some ==> all_decl_names(ds).contains(
                decl_label(ds[i])->0,
            ),
    decreases ds.len(),
{
    if ds.len() > 0 {
        let p = ds.subrange(0, ds.len() - 1);
        lemma_labels_declared(p);
        assert forall|i: int|
            0 <= i < ds.len() && decl_label(#[trigger] ds[i]) is Some implies all_decl_names(
                ds,
            ).contains(decl_label(ds[i])->0) by {
            if i < ds.len() - 1 {
                assert(p[i] == ds[i]);
            }
        }
    }
}

proof fn lemma_body_keeps_all(info: GenInfo, ds: Seq<Decl>, keep: Set<Seq<char>>)
    requires
        forall|i: int|
            0 <= i < ds.len() && decl_label(#[trigger] ds[i]) is Some ==> keep.contains(
                decl_label(ds[i])->0,
            ),
    ensures
        body_code(info, ds, keep) == all_decls_code(info, ds),
    decreases ds.len(),
{
    if ds.len() > 0 {
        let p = ds.drop_last();
        assert forall|i: int| 0 <= i < p.len() && decl_label(#[trigger] p[i]) is Some implies keep.contains(
            decl_label(p[i])->0,
        ) by {
            assert(p[i] == ds[i]);
        }
        lemma_body_keeps_all(info, p, keep);
        assert(ds.last() == ds[ds.len() - 1]);
    }
}

proof fn lemma_no_evals(ds: Seq<Decl>)
    requires
        forall|i: int| 0 <= i < ds.len() ==> !(#[trigger] ds[i] is Eval),
    ensures
        evals_of(ds).len() == 0,
    decreases ds.len(),
{
    if ds.len() > 0 {
        let p = ds.drop_last();
        assert forall|i: int| 0 <= i < p.len() implies !(#[trigger] p[i] is Eval) by {
            assert(p[i] == ds[i]);
        }
        lemma_no_evals(p);
        assert(!(ds[ds.len() - 1] is Eval));
    }
}

/// Without an entry point (no `main`, no `#eval`) nothing is eliminated: the
/// code is that of every declaration, in order, and no `main` is made up.
pub proof fn law_no_entry_point_keeps_everything(info: GenInfo, ds: Seq<Decl>)
    requires
        !has_entry_point(ds),
    ensures
        program_code(info, ds) == all_decls_code(info, ds),
{
    lemma_labels_declared(ds);
    lemma_body_keeps_all(info, ds, all_decl_names(ds));
    assert forall|i: int| 0 <= i < ds.len() implies !(#[trigger] ds[i] is Eval) by {
        if ds[i] is Eval {
            assert(has_entry_point(ds));
        }
    }
    lemma_no_evals(ds);
    assert(program_code(info, ds) =~= all_decls_code(info, ds));
}

/// Every binary operator is emitted with the spelling from which the source
/// language reads that same operator back: the text emitted for `op` is read
/// whole as one operator token, `a <text> b` between two integer literals
/// parses as `op` applied to them, and (but for subtraction, which becomes
/// `saturating_sub`) the code of `a op b` is the two operands' code around
/// that text.
pub proof fn law_operator_round_trip(
    info: GenInfo,
    op: BinOp,
    a: u64,
    b: u64,
    ind: nat,
    sa: crate::error::Span,
    so: crate::error::Span,
    sb: crate::error::Span,
    se: crate::error::Span,
    cap: nat,
)
    ensures
        ({
            let t = binop_text(op);
            let read = crate::lexer::lex_operator_at(t, 0);
            let ls = seq![
                (crate::lexer::Lexeme::Kind(crate::token::TokenKind::IntLit(a)), sa),
                (read.0->Ok_0.0, so),
                (crate::lexer::Lexeme::Kind(crate::token::TokenKind::IntLit(b)), sb),
                (crate::lexer::Lexeme::Kind(crate::token::TokenKind::Eof), se),
            ];
            &&& read.0 is Ok
            &&& read.1 == t.len()
            &&& crate::grammar::expr_at(ls, 0, cap) == Ok::<(crate::ast::ExprModel, int), crate::grammar::ParseFailure>(
                (crate::grammar::binary(op, crate::ast::ExprModel::IntLit(a), crate::ast::ExprModel::IntLit(b)), 3),
            )
        }),
        !(op is Sub) ==> expr_code(
            info,
            (Expr::BinOp { op, lhs: Box::new(Expr::IntLit(a)), rhs: Box::new(Expr::IntLit(b)) }),
            ind,
        ) == decimal(a as nat) + " "@ + binop_text(op) + " "@ + decimal(b as nat),
{
    match op {
        BinOp::Add => {
            reveal_strlit("+");
        },
        BinOp::Sub => {
            reveal_strlit("-");
        },
        BinOp::Mul => {
            reveal_strlit("*");
        },
        BinOp::Div => {
            reveal_strlit("/");
        },
        BinOp::Mod => {
            reveal_strlit("%");
        },
        BinOp::Eq => {
            reveal_strlit("==");
        },
        BinOp::Ne => {
            reveal_strlit("!=");
        },
        BinOp::Lt => {
            reveal_strlit("<");
        },
        BinOp::Le => {
            reveal_strlit("<=");
        },
        BinOp::Gt => {
            reveal_strlit(">");
        },
        BinOp::Ge => {
            reveal_strlit(">=");
        },
        BinOp::And => {
            reveal_strlit("&&");
        },
        BinOp::Or => {
            reveal_strlit("||");
        },
    }
    let t = binop_text(op);
    let read = crate::lexer::lex_operator_at(t, 0);
    let ls = seq![
        (crate::lexer::Lexeme::Kind(crate::token::TokenKind::IntLit(a)), sa),
        (read.0->Ok_0.0, so),
        (crate::lexer::Lexeme::Kind(crate::token::TokenKind::IntLit(b)), sb),
        (crate::lexer::Lexeme::Kind(crate::token::TokenKind::Eof), se),
    ];
    assert(crate::grammar::infix_op(ls[1].0) == Some(op));
    crate::grammar::lemma_infix_between_literals(ls, a, b, cap);
    let e = Expr::BinOp { op, lhs: Box::new(Expr::IntLit(a)), rhs: Box::new(Expr::IntLit(b)) };
    assert(expr_code(info, Expr::IntLit(a), ind) == decimal(a as nat));
    assert(expr_code(info, Expr::IntLit(b), ind) == decimal(b as nat));
    if !(op is Sub) {
        assert(expr_code(info, e, ind) == decimal(a as nat) + " "@ + binop_text(op) + " "@ + decimal(b as nat));
    }
}

} // verus!
