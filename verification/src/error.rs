//! Compiler errors and rustc-style diagnostic rendering.
//!
//! `Diagnostic` renders an error with its source location, the offending
//! source line, and caret underlines pointing at the error span.

use vstd::prelude::*;

use crate::text::{decimal, push_char, push_decimal};

verus! {

#[derive(Debug, Clone, Copy, PartialEq, Eq)]
pub struct Span {
    pub line: usize,
    pub column: usize,
    pub end_column: usize,
}

/// `line:column`.
pub open spec fn span_text(s: Span) -> Seq<char> {
    decimal(s.line as nat) + seq![':'] + decimal(s.column as nat)
}

impl Span {
    /// The span as `line:column`.
    pub fn to_display_string(&self) -> (r: String)
        ensures
            r@ == span_text(*self),
    {
        let mut out = String::new();
        push_decimal(&mut out, self.line as u64);
        push_char(&mut out, ':');
        push_decimal(&mut out, self.column as u64);
        out
    }
}

/// The lines of a text as `str::lines` yields them: split at `\n`, a `\r`
/// just before a `\n` dropped, no empty line after a final `\n`.
pub open spec fn text_lines(s: Seq<char>) -> Seq<Seq<char>> {
    lines_from(s, seq![])
}

/// `cur` is the part of the current line read so far.
pub open spec fn lines_from(s: Seq<char>, cur: Seq<char>) -> Seq<Seq<char>>
    decreases s.len(),
{
    if s.len() == 0 {
        if cur.len() == 0 {
            seq![]
        } else {
            seq![cur]
        }
    } else if s[0] == '\n' {
        seq![strip_cr(cur)] + lines_from(s.drop_first(), seq![])
    } else {
        lines_from(s.drop_first(), cur.push(s[0]))
    }
}

pub open spec fn strip_cr(line: Seq<char>) -> Seq<char> {
    if line.len() > 0 && line.last() == '\r' {
        line.drop_last()
    } else {
        line
    }
}

pub struct SourceMap {
    lines: Vec<String>,
}

impl View for SourceMap {
    type V = Seq<Seq<char>>;

    closed spec fn view(&self) -> Seq<Seq<char>> {
        self.lines@.map_values(|l: String| l@)
    }
}

impl SourceMap {
    pub fn new(source: &str) -> (sm: SourceMap)
        ensures
            sm@ == text_lines(source@),
    {
        let chars = crate::text::chars_of(source);
        let mut lines: Vec<String> = Vec::new();
        let mut cur: Vec<char> = Vec::new();
        let mut i: usize = 0;
        assert(chars@.skip(0) =~= chars@);
        assert(lines@.map_values(|l: String| l@) + lines_from(chars@.skip(0), cur@)
            =~= lines_from(source@, seq![]));
        while i < chars.len()
            invariant
                0 <= i <= chars@.len(),
                chars@ == source@,
                lines@.map_values(|l: String| l@) + lines_from(chars@.skip(i as int), cur@)
                    == text_lines(source@),
            decreases chars.len() - i,
        {
            let ghost rest = chars@.skip(i as int);
            assert(rest.drop_first() =~= chars@.skip(i + 1));
            let c = chars[i];
            if c == '\n' {
                let n = cur.len();
                let keep = if n > 0 && cur[n - 1] == '\r' { n - 1 } else { n };
                let line = crate::text::string_from_prefix(&cur, keep);
                assert(line@ =~= strip_cr(cur@));
                let ghost before = lines@;
                lines.push(line);
                assert(lines@.map_values(|l: String| l@) =~= before.map_values(|l: String| l@)
                    + seq![strip_cr(cur@)]);
                cur = Vec::new();
            } else {
                cur.push(c);
            }
            i += 1;
        }
        assert(chars@.skip(i as int) =~= Seq::<char>::empty());
        if cur.len() > 0 {
            let line = crate::text::string_from_prefix(&cur, cur.len());
            assert(line@ =~= cur@);
            let ghost before = lines@;
            lines.push(line);
            assert(lines@.map_values(|l: String| l@) =~= before.map_values(|l: String| l@)
                + seq![cur@]);
        } else {
            assert(lines@.map_values(|l: String| l@) + seq![] =~= lines@.map_values(|l: String| l@));
        }
        SourceMap { lines }
    }

    /// Line `line` of the source (1-based), or `None` outside the source.
    pub fn line_text(&self, line: usize) -> (r: Option<&str>)
        ensures
            r is None <==> (line == 0 || line > self@.len()),
            r matches Some(t) ==> t@ == self@[line - 1],
    {
        if line == 0 || line > self.lines.len() {
            None
        } else {
            Some(self.lines[line - 1].as_str())
        }
    }
}


#[derive(Debug)]
pub enum CompilerError {
    LexError { msg: String, span: Span },
    ParseError { msg: String, span: Span },
    ResolveError { msg: String, span: Span },
    TypeError { msg: String, span: Span },
    CodeGenError { msg: String },
    ModuleError { msg: String },
    /// An input/output failure, carried as the message it reported.
    IoError(String),
    Multiple(Vec<CompilerError>),
}

pub type LustcResult<T> = Result<T, CompilerError>;

/// `n` copies of `c`.
pub open spec fn repeat(c: char, n: nat) -> Seq<char> {
    Seq::new(n, |i: int| c)
}

/// Appends `n` copies of `c`.
pub fn push_repeat(out: &mut String, c: char, n: usize)
    ensures
        final(out)@ == old(out)@ + repeat(c, n as nat),
{
    let mut i: usize = 0;
    while i < n
        invariant
            i <= n,
            out@ == old(out)@ + repeat(c, i as nat),
        decreases n - i,
    {
        push_char(out, c);
        assert(old(out)@ + repeat(c, (i + 1) as nat) =~= old(out)@ + repeat(c, i as nat) + seq![c]);
        i += 1;
    }
}

/// The one-line rendering of an error (what `Display` shows).
pub open spec fn error_text(e: CompilerError) -> Seq<char>
    decreases e,
{
    match e {
        CompilerError::LexError { msg, span } => "Lex error at "@ + span_text(span) + ": "@ + msg@,
        CompilerError::ParseError { msg, span } => "Parse error at "@ + span_text(span) + ": "@ + msg@,
        CompilerError::ResolveError { msg, span } => "Resolve error at "@ + span_text(span) + ": "@
            + msg@,
        CompilerError::TypeError { msg, span } => "Type error at "@ + span_text(span) + ": "@ + msg@,
        CompilerError::CodeGenError { msg } => "Code generation error: "@ + msg@,
        CompilerError::ModuleError { msg } => "Module error: "@ + msg@,
        CompilerError::IoError(msg) => "IO error: "@ + msg@,
        CompilerError::Multiple(errs) => errors_text(errs@),
    }
}

/// The renderings of `es`, one per line.
pub open spec fn errors_text(es: Seq<CompilerError>) -> Seq<char>
    decreases es,
{
    if es.len() == 0 {
        seq![]
    } else if es.len() == 1 {
        error_text(es[0])
    } else {
        errors_text(es.subrange(0, es.len() - 1)) + seq!['\n'] + error_text(es[es.len() - 1])
    }
}

impl CompilerError {
    /// The one-line rendering of the error.
    pub fn to_display_string(&self) -> (r: String)
        ensures
            r@ == error_text(*self),
        decreases self,
    {
        let mut out = String::new();
        match self {
            CompilerError::LexError { msg, span } => {
                out.append("Lex error at ");
                push_span_msg(&mut out, span, msg);
            },
            CompilerError::ParseError { msg, span } => {
                out.append("Parse error at ");
                push_span_msg(&mut out, span, msg);
            },
            CompilerError::ResolveError { msg, span } => {
                out.append("Resolve error at ");
                push_span_msg(&mut out, span, msg);
            },
            CompilerError::TypeError { msg, span } => {
                out.append("Type error at ");
                push_span_msg(&mut out, span, msg);
            },
            CompilerError::CodeGenError { msg } => {
                out.append("Code generation error: ");
                out.append(msg.as_str());
            },
            CompilerError::ModuleError { msg } => {
                out.append("Module error: ");
                out.append(msg.as_str());
            },
            CompilerError::IoError(msg) => {
                out.append("IO error: ");
                out.append(msg.as_str());
            },
            CompilerError::Multiple(errs) => {
                let mut i: usize = 0;
                while i < errs.len()
                    invariant
                        i <= errs@.len(),
                        *self == CompilerError::Multiple(*errs),
                        out@ == errors_text(errs@.subrange(0, i as int)),
                    decreases errs.len() - i,
                {
                    let ghost prev = errs@.subrange(0, i as int);
                    assert(errs@.subrange(0, i + 1).subrange(0, i as int) =~= prev);
                    assert(decreases_to!(*errs => errs[i as int]));
                    assert(decreases_to!(*self => (*self)->Multiple_0));
                    assert(decreases_to!(*self => errs[i as int]));
                    let s = errs[i].to_display_string();
                    if i > 0 {
                        push_char(&mut out, '\n');
                    } else {
                        assert(out@ =~= Seq::<char>::empty());
                    }
                    out.append(s.as_str());
                    i += 1;
                }
                assert(errs@.subrange(0, errs@.len() as int) =~= errs@);
            },
        }
        out
    }
}

fn push_span_msg(out: &mut String, span: &Span, msg: &String)
    ensures
        final(out)@ == old(out)@ + span_text(*span) + ": "@ + msg@,
{
    let s = span.to_display_string();
    out.append(s.as_str());
    out.append(": ");
    out.append(msg.as_str());
}


/// `s` right-aligned in a field of width `w` (as `{:>w}` formats it).
pub open spec fn pad_left(s: Seq<char>, w: nat) -> Seq<char> {
    if s.len() < w {
        repeat(' ', (w - s.len()) as nat) + s
    } else {
        s
    }
}

/// Whether rendering `e` against `lines` is defined: a span whose line is
/// shown must have a column of at least 1 (the caret line indents by
/// `column - 1`).
pub open spec fn renderable(e: CompilerError, lines: Seq<Seq<char>>) -> bool
    decreases e,
{
    match e {
        CompilerError::LexError { span, .. } => span_renderable(span, lines),
        CompilerError::ParseError { span, .. } => span_renderable(span, lines),
        CompilerError::ResolveError { span, .. } => span_renderable(span, lines),
        CompilerError::TypeError { span, .. } => span_renderable(span, lines),
        CompilerError::Multiple(errs) => all_renderable(errs@, lines),
        _ => true,
    }
}

pub open spec fn all_renderable(es: Seq<CompilerError>, lines: Seq<Seq<char>>) -> bool
    decreases es,
{
    if es.len() == 0 {
        true
    } else {
        all_renderable(es.subrange(0, es.len() - 1), lines) && renderable(es[es.len() - 1], lines)
    }
}

proof fn lemma_all_renderable(es: Seq<CompilerError>, lines: Seq<Seq<char>>, i: int)
    requires
        all_renderable(es, lines),
        0 <= i < es.len(),
    ensures
        renderable(es[i], lines),
    decreases es.len(),
{
    if i < es.len() - 1 {
        lemma_all_renderable(es.subrange(0, es.len() - 1), lines, i);
    }
}

pub open spec fn span_renderable(span: Span, lines: Seq<Seq<char>>) -> bool {
    span.line == 0 || span.line > lines.len() || span.column >= 1
}

/// The number of carets under a span.
pub open spec fn caret_count(span: Span) -> nat {
    if span.end_column > span.column {
        (span.end_column - span.column) as nat
    } else {
        1
    }
}

/// The rich rendering of one located error.
pub open spec fn located_text(
    label: Seq<char>,
    msg: Seq<char>,
    span: Span,
    lines: Seq<Seq<char>>,
    filename: Seq<char>,
) -> Seq<char> {
    location_header(label, msg, span, filename) + source_excerpt(msg, span, lines)
}

/// The message line, the `-->` location line and the gutter line.
pub open spec fn location_header(label: Seq<char>, msg: Seq<char>, span: Span, filename: Seq<char>) -> Seq<
    char,
> {
    label + ": "@ + msg + seq!['\n'] + "  --> "@ + filename + seq![':'] + decimal(span.line as nat)
        + seq![':'] + decimal(span.column as nat) + seq!['\n'] + "   |\n"@
}

/// The source line and the caret line under it, when the line exists.
pub open spec fn source_excerpt(msg: Seq<char>, span: Span, lines: Seq<Seq<char>>) -> Seq<char> {
    if span.line == 0 || span.line > lines.len() {
        seq![]
    } else {
        pad_left(decimal(span.line as nat), 3) + " | "@ + lines[span.line - 1] + seq!['\n']
            + "   | "@ + repeat(' ', (span.column - 1) as nat) + repeat('^', caret_count(span))
            + seq![' '] + msg + seq!['\n']
    }
}

/// The rich rendering of an error against the lines of its source file.
pub open spec fn diagnostic_text(e: CompilerError, lines: Seq<Seq<char>>, filename: Seq<char>) -> Seq<
    char,
>
    decreases e,
{
    match e {
        CompilerError::LexError { msg, span } => located_text("error"@, msg@, span, lines, filename),
        CompilerError::ParseError { msg, span } => located_text("error"@, msg@, span, lines, filename),
        CompilerError::ResolveError { msg, span } => located_text(
            "error"@,
            msg@,
            span,
            lines,
            filename,
        ),
        CompilerError::TypeError { msg, span } => located_text(
            "type error"@,
            msg@,
            span,
            lines,
            filename,
        ),
        CompilerError::CodeGenError { msg } => "error: "@ + msg@ + seq!['\n'],
        CompilerError::ModuleError { msg } => "module error: "@ + msg@ + seq!['\n'],
        CompilerError::IoError(msg) => "error: "@ + msg@ + seq!['\n'],
        CompilerError::Multiple(errs) => diagnostics_text(errs@, lines, filename),
    }
}

/// The renderings of `es`, separated by blank lines.
pub open spec fn diagnostics_text(es: Seq<CompilerError>, lines: Seq<Seq<char>>, filename: Seq<char>) -> Seq<
    char,
>
    decreases es,
{
    if es.len() == 0 {
        seq![]
    } else if es.len() == 1 {
        diagnostic_text(es[0], lines, filename)
    } else {
        diagnostics_text(es.subrange(0, es.len() - 1), lines, filename) + seq!['\n']
            + diagnostic_text(es[es.len() - 1], lines, filename)
    }
}

pub struct Diagnostic<'a> {
    error: &'a CompilerError,
    source_map: &'a SourceMap,
    filename: &'a str,
}

impl<'a> Diagnostic<'a> {
    pub fn new(error: &'a CompilerError, source_map: &'a SourceMap, filename: &'a str) -> (d: Self)
        ensures
            d.error() == *error,
            d.lines() == source_map@,
            d.filename() == filename@,
    {
        Diagnostic { error, source_map, filename }
    }

    pub closed spec fn error(&self) -> CompilerError {
        *self.error
    }

    pub closed spec fn lines(&self) -> Seq<Seq<char>> {
        self.source_map@
    }

    pub closed spec fn filename(&self) -> Seq<char> {
        self.filename@
    }

    /// Whether the diagnostic can be rendered: every located error whose line
    /// is shown has a column of at least 1.
    pub fn can_render(&self) -> (r: bool)
        ensures
            r == renderable(self.error(), self.lines()),
    {
        renderable_exec(self.error, self.source_map)
    }

    /// The rendered diagnostic (what `Display` shows).
    pub fn render(&self) -> (r: String)
        requires
            renderable(self.error(), self.lines()),
        ensures
            r@ == diagnostic_text(self.error(), self.lines(), self.filename()),
    {
        let mut out = String::new();
        render_into(&mut out, self.error, self.source_map, self.filename);
        out
    }
}

fn render_into(out: &mut String, e: &CompilerError, sm: &SourceMap, filename: &str)
    requires
        renderable(*e, sm@),
    ensures
        final(out)@ == old(out)@ + diagnostic_text(*e, sm@, filename@),
    decreases e,
{
    match e {
        CompilerError::LexError { msg, span } => render_located(out, "error", msg, span, sm, filename),
        CompilerError::ParseError { msg, span } => render_located(out, "error", msg, span, sm, filename),
        CompilerError::ResolveError { msg, span } => render_located(
            out,
            "error",
            msg,
            span,
            sm,
            filename,
        ),
        CompilerError::TypeError { msg, span } => render_located(
            out,
            "type error",
            msg,
            span,
            sm,
            filename,
        ),
        CompilerError::CodeGenError { msg } => {
            out.append("error: ");
            out.append(msg.as_str());
            push_char(out, '\n');
        },
        CompilerError::ModuleError { msg } => {
            out.append("module error: ");
            out.append(msg.as_str());
            push_char(out, '\n');
        },
        CompilerError::IoError(msg) => {
            out.append("error: ");
            out.append(msg.as_str());
            push_char(out, '\n');
        },
        CompilerError::Multiple(errs) => {
            let ghost start = out@;
            assert forall|j: int| 0 <= j < errs@.len() implies renderable(errs@[j], sm@) by {
                lemma_all_renderable(errs@, sm@, j);
            }
            let mut i: usize = 0;
            while i < errs.len()
                invariant
                    i <= errs@.len(),
                    *e == CompilerError::Multiple(*errs),
                    forall|j: int| 0 <= j < errs@.len() ==> renderable(#[trigger] errs@[j], sm@),
                    out@ == start + diagnostics_text(errs@.subrange(0, i as int), sm@, filename@),
                decreases errs.len() - i,
            {
                let ghost prev = errs@.subrange(0, i as int);
                assert(errs@.subrange(0, i + 1).subrange(0, i as int) =~= prev);
                assert(decreases_to!(*errs => errs[i as int]));
                assert(decreases_to!(*e => (*e)->Multiple_0));
                assert(renderable(errs@[i as int], sm@));
                if i > 0 {
                    push_char(out, '\n');
                } else {
                    assert(out@ =~= start);
                }
                render_into(out, &errs[i], sm, filename);
                proof {
                    if i > 0 {
                        assert(out@ =~= start + (diagnostics_text(prev, sm@, filename@) + seq!['\n']
                            + diagnostic_text(errs@[i as int], sm@, filename@)));
                    } else {
                        assert(out@ =~= start + diagnostic_text(errs@[i as int], sm@, filename@));
                    }
                }
                i += 1;
            }
            assert(errs@.subrange(0, errs@.len() as int) =~= errs@);
        },
    }
}

fn render_located(
    out: &mut String,
    label: &str,
    msg: &String,
    span: &Span,
    sm: &SourceMap,
    filename: &str,
)
    requires
        span_renderable(*span, sm@),
    ensures
        final(out)@ == old(out)@ + located_text(label@, msg@, *span, sm@, filename@),
{
    render_header(out, label, msg, span, filename);
    render_excerpt(out, msg, span, sm);
}

fn render_header(out: &mut String, label: &str, msg: &String, span: &Span, filename: &str)
    ensures
        final(out)@ == old(out)@ + location_header(label@, msg@, *span, filename@),
{
    let ghost start = out@;
    out.append(label);
    out.append(": ");
    out.append(msg.as_str());
    push_char(out, '\n');
    out.append("  --> ");
    out.append(filename);
    push_char(out, ':');
    push_decimal(out, span.line as u64);
    push_char(out, ':');
    push_decimal(out, span.column as u64);
    push_char(out, '\n');
    out.append("   |\n");
    assert(out@ =~= start + location_header(label@, msg@, *span, filename@));
}

fn render_excerpt(out: &mut String, msg: &String, span: &Span, sm: &SourceMap)
    requires
        span_renderable(*span, sm@),
    ensures
        final(out)@ == old(out)@ + source_excerpt(msg@, *span, sm@),
{
    let ghost start = out@;
    match sm.line_text(span.line) {
        Some(line_text) => {
            let mut num = String::new();
            push_decimal(&mut num, span.line as u64);
            let w = num.as_str().unicode_len();
            if w < 3 {
                push_repeat(out, ' ', 3 - w);
            }
            out.append(num.as_str());
            let ghost padded = out@;
            assert(padded =~= start + pad_left(decimal(span.line as nat), 3));
            out.append(" | ");
            out.append(line_text);
            push_char(out, '\n');
            let underline_len = if span.end_column > span.column {
                span.end_column - span.column
            } else {
                1
            };
            out.append("   | ");
            push_repeat(out, ' ', span.column - 1);
            push_repeat(out, '^', underline_len);
            push_char(out, ' ');
            out.append(msg.as_str());
            push_char(out, '\n');
            assert(out@ =~= start + source_excerpt(msg@, *span, sm@));
        },
        None => {
            assert(out@ =~= start + source_excerpt(msg@, *span, sm@));
        },
    }
}

fn span_renderable_exec(span: &Span, sm: &SourceMap) -> (r: bool)
    ensures
        r == span_renderable(*span, sm@),
{
    span.line == 0 || span.line > sm.lines.len() || span.column >= 1
}

fn renderable_exec(e: &CompilerError, sm: &SourceMap) -> (r: bool)
    ensures
        r == renderable(*e, sm@),
    decreases e,
{
    match e {
        CompilerError::LexError { span, .. } | CompilerError::ParseError { span, .. } | CompilerError::ResolveError { span, .. } | CompilerError::TypeError { span, .. } => span_renderable_exec(span, sm),
        CompilerError::Multiple(errs) => {
            let mut i: usize = 0;
            while i < errs.len()
                invariant
                    i <= errs@.len(),
                    *e == CompilerError::Multiple(*errs),
                    all_renderable(errs@.subrange(0, i as int), sm@),
                decreases errs.len() - i,
            {
                proof {
                    assert(decreases_to!(*e => (*e)->Multiple_0));
                    assert(decreases_to!(*errs => errs[i as int]));
                    assert(errs@.subrange(0, i + 1).subrange(0, i as int) =~= errs@.subrange(0, i as int));
                }
                if !renderable_exec(&errs[i], sm) {
                    proof {
                        if all_renderable(errs@, sm@) {
                            lemma_all_renderable(errs@, sm@, i as int);
                        }
                    }
                    return false;
                }
                i += 1;
            }
            assert(errs@.subrange(0, i as int) =~= errs@);
            true
        },
        _ => true,
    }
}

} // verus!
