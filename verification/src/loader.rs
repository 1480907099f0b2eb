//! Loading a program with its imports. The loader decides which module is
//! needed next, refuses circular imports, reuses modules loaded before, and
//! wraps each imported module in a namespace named after it; finding and
//! reading files is left to the caller, who answers each request in turn.

use vstd::prelude::*;

use crate::ast::{join_with, push_joined, views, Decl, ModulePath};
use crate::error::{CompilerError, LustcResult};
use crate::lexer::Lexer;
use crate::ast::{decl_model, decls_model, DeclModel};
use crate::grammar::program_at;
use crate::lexer::lexed;
use crate::parser::{parse_fails, parse_outcome, top_bound, Parser};
use crate::text::copy_string;

verus! {

/// A source that can be lexed and parsed without error.
pub open spec fn parsable(s: Seq<char>) -> bool {
    s.len() <= usize::MAX / 8 && !parse_fails(s)
}

/// Lexes and parses a source text.
#[verifier::spinoff_prover]
#[verifier::rlimit(40)]
pub fn parse_source(source: &str) -> (r: LustcResult<Vec<Decl>>)
    requires
        source@.len() <= usize::MAX / 8,
    ensures
        r matches Err(e) ==> (e is LexError || e is Multiple),
        parse_outcome(source@, r),
{
    let mut lexer = Lexer::new(source);
    let lexed_r = lexer.tokenize();
    proof {
        crate::lexer::lemma_tokenize_lexed(source@, lexed_r);
    }
    let tokens = match lexed_r {
        Ok(ts) => ts,
        Err(e) => return Err(e),
    };
    let mut parser = Parser::new(tokens);
    assert(parser.errors() =~= seq![]);
    parser.parse_program()
}

/// The paths of the `import`s among `ds`, in order.
pub open spec fn import_paths(ds: Seq<Decl>) -> Seq<ModulePath>
    decreases ds.len(),
{
    if ds.len() == 0 {
        seq![]
    } else {
        import_paths(ds.drop_last()) + match ds.last() {
            Decl::Import { path } => seq![path],
            _ => seq![],
        }
    }
}

/// The declarations other than `import`s, in order.
pub open spec fn non_imports(ds: Seq<Decl>) -> Seq<Decl>
    decreases ds.len(),
{
    if ds.len() == 0 {
        seq![]
    } else {
        non_imports(ds.drop_last()) + if ds.last() is Import {
            seq![]
        } else {
            seq![ds.last()]
        }
    }
}

/// Separates the `import`s of a module from its other declarations.
pub fn split_imports(decls: Vec<Decl>) -> (r: (Vec<ModulePath>, Vec<Decl>))
    ensures
        r.0@ == import_paths(decls@),
        r.1@ == non_imports(decls@),
{
    let ghost all = decls@;
    let mut rest = decls;
    let mut imports: Vec<ModulePath> = Vec::new();
    let mut own: Vec<Decl> = Vec::new();
    let ghost mut taken: int = 0;
    while rest.len() > 0
        invariant
            0 <= taken <= all.len(),
            rest@ == all.subrange(taken, all.len() as int),
            imports@ == import_paths(all.subrange(0, taken)),
            own@ == non_imports(all.subrange(0, taken)),
        decreases rest.len(),
    {
        let d = rest.remove(0);
        proof {
            assert(d == all[taken]);
            assert(all.subrange(0, taken + 1).drop_last() =~= all.subrange(0, taken));
        }
        match d {
            Decl::Import { path } => {
                imports.push(path);
            },
            other => {
                own.push(other);
            },
        }
        proof {
            taken = taken + 1;
            assert(rest@ =~= all.subrange(taken, all.len() as int));
        }
    }
    assert(all.subrange(0, all.len() as int) =~= all);
    (imports, own)
}

/// A module's declarations wrapped in a namespace named `name`, or left as
/// they are when `name` is empty.
pub open spec fn wraps(r: Seq<Decl>, name: Seq<char>, ds: Seq<Decl>) -> bool {
    if name.len() == 0 {
        r == ds
    } else {
        &&& r.len() == 1
        &&& r[0] matches Decl::Namespace { name: n, decls: d }
        &&& r[0]->Namespace_name@ == name
        &&& r[0]->Namespace_decls@ == ds
    }
}

/// Wraps a module's declarations in a namespace named `name`, unless `name`
/// is empty.
pub fn wrap_module(name: &String, decls: Vec<Decl>) -> (r: Vec<Decl>)
    ensures
        wraps(r@, name@, decls@),
{
    if name.as_str().unicode_len() == 0 {
        decls
    } else {
        let mut r: Vec<Decl> = Vec::new();
        r.push(Decl::Namespace { name: copy_string(name), decls });
        r
    }
}

/// The last segment of a module path, or nothing.
pub open spec fn last_segment(p: ModulePath) -> Seq<char> {
    if p.segments@.len() > 0 {
        p.segments@.last()@
    } else {
        seq![]
    }
}

/// A module path written with dots.
pub open spec fn dotted_path(p: ModulePath) -> Seq<char> {
    join_with(views(p.segments@), '.')
}

/// A module's file, relative to the entry file's directory.
pub open spec fn module_file(p: ModulePath) -> Seq<char> {
    join_with(views(p.segments@), '/') + ".lean"@
}

/// The error for an import that leads back to a module being loaded.
pub open spec fn circular_message(p: ModulePath) -> Seq<char> {
    "circular import detected: "@ + dotted_path(p)
}

/// The error for a module whose file cannot be read.
pub open spec fn not_found_message(p: ModulePath, file: Seq<char>) -> Seq<char> {
    "module `"@ + dotted_path(p) + "` not found (looked for "@ + file + ")"@
}


/// A module being expanded, by its models: the namespace it goes into, the
/// identity and source of its file, whether it was loaded before, the paths
/// it imports (by their segments), how many of them are expanded, the
/// expanded imports so far, and its own declarations.
pub struct FrameModel {
    pub name: Seq<char>,
    pub canonical: Seq<char>,
    pub source: Seq<char>,
    pub replay: bool,
    pub imports: Seq<Seq<Seq<char>>>,
    pub next: int,
    pub acc: Seq<DeclModel>,
    pub own: Seq<DeclModel>,
}

/// The paths imported among `ds`, in order, by their segments.
pub open spec fn model_imports(ds: Seq<DeclModel>) -> Seq<Seq<Seq<char>>>
    decreases ds.len(),
{
    if ds.len() == 0 {
        seq![]
    } else {
        model_imports(ds.drop_last()) + match ds.last() {
            DeclModel::Import(p) => seq![p],
            _ => seq![],
        }
    }
}

/// The declarations among `ds` other than imports, in order.
pub open spec fn model_own(ds: Seq<DeclModel>) -> Seq<DeclModel>
    decreases ds.len(),
{
    if ds.len() == 0 {
        seq![]
    } else {
        model_own(ds.drop_last()) + if ds.last() is Import {
            seq![]
        } else {
            seq![ds.last()]
        }
    }
}

/// A module's program as an import brings it in: in a namespace `name`, or
/// as it is when `name` is empty.
pub open spec fn wrap_model(name: Seq<char>, ds: Seq<DeclModel>) -> Seq<DeclModel> {
    if name.len() == 0 {
        ds
    } else {
        seq![DeclModel::Namespace { name, decls: ds }]
    }
}

/// The frame a module named `name` starts with, from the program parsed
/// from its source.
pub open spec fn fresh_frame(
    name: Seq<char>,
    canonical: Seq<char>,
    source: Seq<char>,
    replay: bool,
) -> FrameModel {
    let ds = program_at(lexed(source)->Ok_0, 0, top_bound()).0;
    FrameModel {
        name,
        canonical,
        source,
        replay,
        imports: model_imports(ds),
        next: 0,
        acc: seq![],
        own: model_own(ds),
    }
}

/// Winding up the stack of modules being expanded: a module whose imports
/// are all expanded goes, wrapped, into the module that imports it, which
/// moves on to its next import. The result is the stack left; once the entry
/// module is done, its program; and the modules finished on the way that
/// were read rather than loaded before (identity and source), in order.
pub open spec fn settle(st: Seq<FrameModel>) -> (
    Seq<FrameModel>,
    Option<Seq<DeclModel>>,
    Seq<(Seq<char>, Seq<char>)>,
)
    decreases st.len(),
{
    if st.len() == 0 {
        (st, None, seq![])
    } else if st.last().next < st.last().imports.len() {
        (st, None, seq![])
    } else if st.len() == 1 {
        (seq![], Some(st.last().acc + st.last().own), seq![])
    } else {
        let top = st.last();
        let parent = st[st.len() - 2];
        let rest = settle(
            st.subrange(0, st.len() - 2).push(
                FrameModel {
                    name: parent.name,
                    canonical: parent.canonical,
                    source: parent.source,
                    replay: parent.replay,
                    imports: parent.imports,
                    next: parent.next + 1,
                    acc: parent.acc + wrap_model(top.name, top.acc + top.own),
                    own: parent.own,
                },
            ),
        );
        let done: Seq<(Seq<char>, Seq<char>)> = if top.replay {
            seq![]
        } else {
            seq![(top.canonical, top.source)]
        };
        (rest.0, rest.1, done + rest.2)
    }
}

/// The modules of the stack `st` being read for the first time (the entry
/// module aside): those an import must not lead back to.
pub open spec fn open_modules(st: Seq<FrameModel>) -> Seq<Seq<char>>
    decreases st.len(),
{
    if st.len() <= 1 {
        seq![]
    } else {
        open_modules(st.drop_last()) + if st.last().replay {
            seq![]
        } else {
            seq![st.last().canonical]
        }
    }
}

/// The file of the import that the innermost module of `st` expands next.
pub open spec fn next_file(st: Seq<FrameModel>) -> Seq<char> {
    join_with(st.last().imports[st.last().next], '/') + ".lean"@
}

/// Whether `r` is the loader's answer after the stack `st` is wound up:
/// the program when the entry module is done, else a request for the file
/// of the next import.
pub open spec fn settles_to(st: Seq<FrameModel>, r: LoadAction) -> bool {
    match settle(st).1 {
        Some(ds) => r matches LoadAction::Done(v) && decls_model(v@) == ds,
        None => r matches LoadAction::Locate { file } && file@ == next_file(settle(st).0),
    }
}

/// The source of the latest module loaded from `canonical`.
pub open spec fn latest_source(loaded: Seq<(Seq<char>, Seq<char>)>, canonical: Seq<char>) -> Seq<char>
    decreases loaded.len(),
{
    if loaded.len() == 0 {
        seq![]
    } else if loaded.last().0 == canonical {
        loaded.last().1
    } else {
        latest_source(loaded.drop_last(), canonical)
    }
}

/// What the loader asks of its caller, or its outcome.
pub enum LoadAction {
    /// Find the module file at this path, relative to the entry file's
    /// directory, and answer with `located`.
    Locate { file: String },
    /// Read this file and answer with `read`.
    Read { file: String },
    /// The program, its imports expanded.
    Done(Vec<Decl>),
    /// Loading stopped on this error.
    Fail(CompilerError),
}

/// Where the loader stands in its exchange with the caller.
#[derive(Debug, Clone, Copy, PartialEq, Eq, Structural)]
pub enum Stage {
    /// Waiting for the entry file.
    Start,
    /// Waiting for the location of the module it asked for.
    Location,
    /// Waiting for the source of the file it asked for.
    Source,
    /// Finished, with a program or an error.
    Finished,
}

/// A module whose imports are being expanded.
struct Frame {
    /// The namespace it is wrapped in (empty for the entry file).
    name: String,
    /// Its file's identity, for circular-import checks and reuse.
    canonical: String,
    /// Its source, kept for reuse.
    source: String,
    /// Whether it was loaded before and is being expanded again.
    replay: bool,
    imports: Vec<ModulePath>,
    /// How many of its imports are expanded.
    next: usize,
    /// The expanded imports so far.
    acc: Vec<Decl>,
    /// Its own declarations.
    own: Vec<Decl>,
}

/// A file the loader asked for: its identity and its name.
struct Pending {
    canonical: String,
    file: String,
}

/// Each frame has expanded no more imports than it has, and every frame but
/// the innermost is in the middle of expanding one.
spec fn frames_ok(fs: Seq<Frame>) -> bool {
    forall|i: int|
        0 <= i < fs.len() ==> (#[trigger] fs[i]).next <= fs[i].imports@.len() && (i < fs.len() - 1
            ==> fs[i].next < fs[i].imports@.len())
}

/// A frame by its models.
spec fn frame_model(f: Frame) -> FrameModel {
    FrameModel {
        name: f.name@,
        canonical: f.canonical@,
        source: f.source@,
        replay: f.replay,
        imports: f.imports@.map_values(|p: ModulePath| views(p.segments@)),
        next: f.next as int,
        acc: decls_model(f.acc@),
        own: decls_model(f.own@),
    }
}

/// The model of a frame made from a module's parsed declarations.
proof fn lemma_split_models(ds: Seq<Decl>)
    ensures
        import_paths(ds).map_values(|p: ModulePath| views(p.segments@)) == model_imports(
            decls_model(ds),
        ),
        decls_model(non_imports(ds)) == model_own(decls_model(ds)),
    decreases ds.len(),
{
    assert(decls_model(Seq::<Decl>::empty()) == Seq::<DeclModel>::empty());
    if ds.len() > 0 {
        let d0 = ds.drop_last();
        let dm = decls_model(ds);
        lemma_split_models(d0);
        assert(ds.subrange(0, ds.len() - 1) =~= d0);
        assert(dm == decls_model(d0).push(decl_model(ds.last())));
        assert(dm.drop_last() =~= decls_model(d0));
        assert(dm.last() == decl_model(ds.last()));
        match ds.last() {
            Decl::Import { path } => {
                assert(import_paths(ds) == import_paths(d0) + seq![path]);
                assert(import_paths(ds).map_values(|p: ModulePath| views(p.segments@))
                    =~= import_paths(d0).map_values(|p: ModulePath| views(p.segments@)) + seq![
                    views(path.segments@),
                ]);
                assert(model_imports(dm) == model_imports(dm.drop_last()) + seq![views(path.segments@)]);
                assert(non_imports(ds) =~= non_imports(d0));
                assert(model_own(dm) =~= model_own(dm.drop_last()));
            },
            other => {
                assert(!(decl_model(other) is Import));
                assert(import_paths(ds) =~= import_paths(d0));
                assert(model_imports(dm) =~= model_imports(dm.drop_last()));
                assert(non_imports(ds) == non_imports(d0) + seq![other]);
                crate::ast::lemma_decls_model_concat(non_imports(d0), seq![other]);
                assert(seq![other].subrange(0, 0) =~= Seq::<Decl>::empty());
                assert(decls_model(seq![other]) =~= seq![decl_model(other)]);
                assert(model_own(dm) == model_own(dm.drop_last()) + seq![dm.last()]);
            },
        }
    } else {
        assert(import_paths(ds).map_values(|p: ModulePath| views(p.segments@)) =~= seq![]);
    }
}

/// What wrapping does to the models.
proof fn lemma_wrap_model(r: Seq<Decl>, name: Seq<char>, ds: Seq<Decl>)
    requires
        wraps(r, name, ds),
    ensures
        decls_model(r) == wrap_model(name, decls_model(ds)),
{
    if name.len() > 0 {
        assert(decls_model(Seq::<Decl>::empty()) == Seq::<DeclModel>::empty());
        assert(r.subrange(0, r.len() - 1) =~= Seq::<Decl>::empty());
        assert(decls_model(r) =~= seq![decl_model(r[0])]);
    }
}

/// Loads a program and, recursively, the modules it imports.
pub struct ModuleLoader {
    /// Each file read, with its source, in order.
    pub file_sources: Vec<(String, String)>,
    loading: Vec<String>,
    loaded: Vec<(String, String)>,
    frames: Vec<Frame>,
    /// The file asked for.
    pending: Option<Pending>,
    stage: Stage,
}

impl ModuleLoader {
    pub closed spec fn stage(&self) -> Stage {
        self.stage
    }

    /// The files read so far, with their sources.
    pub closed spec fn sources(&self) -> Seq<(Seq<char>, Seq<char>)> {
        self.file_sources@.map_values(|p: (String, String)| (p.0@, p.1@))
    }

    /// The modules being loaded, innermost last.
    pub closed spec fn loading(&self) -> Seq<Seq<char>> {
        views(self.loading@)
    }

    /// The modules loaded so far.
    pub closed spec fn loaded(&self) -> Seq<Seq<char>> {
        self.loaded@.map_values(|p: (String, String)| p.0@)
    }

    /// The modules loaded so far, with their sources.
    pub closed spec fn loaded_sources(&self) -> Seq<(Seq<char>, Seq<char>)> {
        self.loaded@.map_values(|p: (String, String)| (p.0@, p.1@))
    }

    /// The modules being expanded, innermost last.
    pub closed spec fn stack(&self) -> Seq<FrameModel> {
        self.frames@.map_values(|f: Frame| frame_model(f))
    }

    /// The import whose module was asked for.
    pub closed spec fn requested(&self) -> ModulePath {
        let f = self.frames@.last();
        f.imports@[f.next as int]
    }

    /// The name of the file asked for.
    pub closed spec fn pending_file(&self) -> Seq<char> {
        self.pending->0.file@
    }

    /// The identity of the file asked for.
    pub closed spec fn pending_canonical(&self) -> Seq<char> {
        self.pending->0.canonical@
    }

    /// The frames are consistent with the stage.
    pub closed spec fn wf(&self) -> bool {
        &&& self.stage is Location ==> self.frames@.len() > 0 && self.frames@.last().next
            < self.frames@.last().imports@.len()
        &&& self.stage is Source ==> self.frames@.len() > 0 && self.frames@.last().next
            < self.frames@.last().imports@.len() && self.pending is Some
        &&& self.stage is Start ==> self.frames@.len() == 0 && self.loading@.len() == 0
        &&& self.stage is Location ==> views(self.loading@) == open_modules(self.stack())
        &&& self.stage is Source ==> views(self.loading@) == open_modules(self.stack()).push(
            self.pending->0.canonical@,
        )
        &&& frames_ok(self.frames@)
        &&& forall|i: int| 0 <= i < self.loaded@.len() ==> parsable((#[trigger] self.loaded@[i]).1@)
        &&& forall|i: int| 0 <= i < self.frames@.len() ==> parsable((#[trigger] self.frames@[i]).source@)
    }

    pub fn new() -> (r: ModuleLoader)
        ensures
            r.wf(),
            r.stage() is Start,
            r.sources().len() == 0,
            r.loading().len() == 0,
            r.loaded().len() == 0,
            r.stack().len() == 0,
            r.loaded_sources().len() == 0,
    {
        let r = ModuleLoader {
            file_sources: Vec::new(),
            loading: Vec::new(),
            loaded: Vec::new(),
            frames: Vec::new(),
            pending: None,
            stage: Stage::Start,
        };
        assert(r.sources() =~= seq![]);
        assert(r.loading() =~= seq![]);
        assert(r.loaded() =~= seq![]);
        assert(r.stack() =~= seq![]);
        assert(r.loaded_sources() =~= seq![]);
        r
    }

    /// Where the loader stands.
    pub fn awaiting(&self) -> (r: Stage)
        ensures
            r == self.stage(),
    {
        self.stage
    }

    /// Records a file read.
    fn record_source(&mut self, file: &String, source: &String)
        ensures
            final(self).sources() == old(self).sources().push((file@, source@)),
            final(self).frames == old(self).frames,
            final(self).stage == old(self).stage,
            final(self).pending == old(self).pending,
            final(self).loading == old(self).loading,
            final(self).loaded == old(self).loaded,
    {
        self.file_sources.push((copy_string(file), copy_string(source)));
        assert(self.sources() =~= old(self).sources().push((file@, source@)));
    }

    /// Starts on the entry file: records its source, parses it and moves on
    /// to its first import (or finishes).
    pub fn start(&mut self, file: String, source: String) -> (r: LoadAction)
        requires
            old(self).wf(),
            old(self).stage() is Start,
            source@.len() <= usize::MAX / 8,
        ensures
            final(self).wf(),
            final(self).sources() == old(self).sources().push((file@, source@)),
            r matches LoadAction::Fail(e) ==> (e is LexError || e is Multiple),
            r is Fail <==> parse_fails(source@),
            r matches LoadAction::Fail(e) ==> parse_outcome(source@, Err(e)),
            r is Locate ==> final(self).stage() is Location && r->Locate_file@ == module_file(
                final(self).requested(),
            ),
            r is Done || r is Fail ==> final(self).stage() is Finished,
            !(r is Read),
            !parse_fails(source@) ==> settles_to(seq![fresh_frame(seq![], seq![], source@, false)], r)
                && final(self).stack() == settle(seq![fresh_frame(seq![], seq![], source@, false)]).0
                && final(self).loaded_sources() == old(self).loaded_sources() + settle(
                seq![fresh_frame(seq![], seq![], source@, false)],
            ).2,
            r is Locate ==> final(self).loading() == open_modules(final(self).stack()),
    {
        self.record_source(&file, &source);
        match parse_source(source.as_str()) {
            Err(e) => {
                self.stage = Stage::Finished;
                LoadAction::Fail(e)
            },
            Ok(decls) => {
                let ghost ds = decls@;
                proof {
                    lemma_split_models(ds);
                    assert(decls_model(Seq::<Decl>::empty()) == Seq::<DeclModel>::empty());
                }
                let (imports, own) = split_imports(decls);
                assert(self.frames@.len() == 0);
                let frame = Frame {
                    name: String::new(),
                    canonical: String::new(),
                    source,
                    replay: false,
                    imports,
                    next: 0,
                    acc: Vec::new(),
                    own,
                };
                assert(frame_model(frame) == fresh_frame(seq![], seq![], source@, false));
                self.frames.push(frame);
                assert(self.stack() =~= seq![fresh_frame(seq![], seq![], source@, false)]);
                assert(views(self.loading@) =~= seq![]);
                assert(open_modules(self.stack()) =~= seq![]);
                let r = self.advance();
                r
            },
        }
    }

    /// Moves on: asks for the next import of the innermost module, or, when
    /// it has none left, wraps it into its parent (or finishes with the
    /// entry file's program).
    fn advance(&mut self) -> (r: LoadAction)
        requires
            old(self).frames@.len() > 0,
            frames_ok(old(self).frames@),
            forall|i: int| 0 <= i < old(self).loaded@.len() ==> parsable((#[trigger] old(self).loaded@[i]).1@),
            forall|i: int| 0 <= i < old(self).frames@.len() ==> parsable((#[trigger] old(self).frames@[i]).source@),
            views(old(self).loading@) == open_modules(old(self).stack()),
        ensures
            final(self).wf(),
            final(self).sources() == old(self).sources(),
            r is Locate ==> final(self).stage() is Location && r->Locate_file@ == module_file(
                final(self).requested(),
            ),
            r is Done ==> final(self).stage() is Finished,
            !(r is Read) && !(r is Fail),
            settles_to(old(self).stack(), r),
            final(self).stack() == settle(old(self).stack()).0,
            final(self).loaded_sources() == old(self).loaded_sources() + settle(old(self).stack()).2,
            final(self).loading() == open_modules(final(self).stack()),
    {
        let ghost mut fin: Seq<(Seq<char>, Seq<char>)> = seq![];
        assert(old(self).loaded_sources() + fin =~= old(self).loaded_sources());
        loop
            invariant
                settle(old(self).stack()).0 == settle(self.stack()).0,
                settle(old(self).stack()).1 == settle(self.stack()).1,
                settle(old(self).stack()).2 == fin + settle(self.stack()).2,
                self.loaded_sources() == old(self).loaded_sources() + fin,
                views(self.loading@) == open_modules(self.stack()),
                self.frames@.len() > 0,
                frames_ok(self.frames@),
                forall|i: int| 0 <= i < self.loaded@.len() ==> parsable((#[trigger] self.loaded@[i]).1@),
                forall|i: int| 0 <= i < self.frames@.len() ==> parsable((#[trigger] self.frames@[i]).source@),
                self.sources() == old(self).sources(),
            decreases self.frames@.len(),
        {
            let top = self.frames.len() - 1;
            if self.frames[top].next < self.frames[top].imports.len() {
                let n = self.frames[top].next;
                let file = self.frames[top].imports[n].to_file_path();
                self.stage = Stage::Location;
                proof {
                    assert(self.stack().last() == frame_model(self.frames@[top as int]));
                    assert(settle(self.stack()).2 =~= seq![]);
                    assert(fin + settle(self.stack()).2 =~= fin);
                }
                return LoadAction::Locate { file };
            }
            let ghost fb = self.frames@;
            let ghost st = self.stack();
            assert(st.last() == frame_model(fb[fb.len() - 1]));
            let mut frame = self.frames.pop().unwrap();
            assert(frame == fb[fb.len() - 1]);
            assert(parsable(frame.source@));
            let ghost acc0 = frame.acc@;
            let ghost own0 = frame.own@;
            let mut result = frame.acc;
            result.append(&mut frame.own);
            proof {
                crate::ast::lemma_decls_model_concat(acc0, own0);
                assert(result@ == acc0 + own0);
            }
            if self.frames.len() == 0 {
                self.stage = Stage::Finished;
                assert(self.stack() =~= seq![]);
                assert(fin + settle(st).2 =~= fin);
                assert(open_modules(self.stack()) =~= seq![]);
                assert(views(self.loading@) =~= seq![]);
                return LoadAction::Done(result);
            }
            let ghost done: Seq<(Seq<char>, Seq<char>)> = if frame.replay {
                seq![]
            } else {
                seq![(frame.canonical@, frame.source@)]
            };
            let ghost loaded0 = self.loaded@;
            let ghost loading0 = self.loading@;
            assert(open_modules(st) == open_modules(st.drop_last()) + if st.last().replay {
                seq![]
            } else {
                seq![st.last().canonical]
            });
            if !frame.replay {
                self.loading.pop();
                self.loaded.push((frame.canonical, frame.source));
                assert(views(self.loading@) =~= views(loading0).drop_last());
                assert(self.loaded_sources() =~= old(self).loaded_sources() + fin + done);
            } else {
                assert(self.loaded_sources() =~= old(self).loaded_sources() + fin + done);
            }
            assert(views(self.loading@) == open_modules(st.drop_last()));
            proof {
                fin = fin + done;
            }
            let ghost result_v = result@;
            let mut wrapped = wrap_module(&frame.name, result);
            proof {
                lemma_wrap_model(wrapped@, frame.name@, result_v);
            }
            let ghost wrapped_v = wrapped@;
            let ghost fs = self.frames@;
            assert(fs =~= fb.drop_last());
            let mut p = self.frames.pop().unwrap();
            assert(p == fs[fs.len() - 1]);
            assert(p == fb[fb.len() - 2]);
            assert(frames_ok(fb));
            assert(fb[fb.len() - 2].next < fb[fb.len() - 2].imports@.len());
            let count = p.imports.len();
            assert(p.next < count);
            let ghost pacc0 = p.acc@;
            p.acc.append(&mut wrapped);
            proof {
                crate::ast::lemma_decls_model_concat(pacc0, wrapped_v);
            }
            p.next = p.next + 1;
            self.frames.push(p);
            proof {
                assert(st.drop_last() =~= st.subrange(0, st.len() - 2).push(st[st.len() - 2]));
                let st2 = self.stack();
                if st2.len() >= 2 {
                    assert(st2.drop_last() =~= st.subrange(0, st.len() - 2));
                    assert(st.drop_last().drop_last() =~= st.subrange(0, st.len() - 2));
                    assert(open_modules(st2) == open_modules(st.drop_last()));
                } else {
                    assert(open_modules(st2) =~= seq![]);
                    assert(open_modules(st.drop_last()) =~= seq![]);
                }
                assert(self.stack() =~= st.subrange(0, st.len() - 2).push(
                    FrameModel {
                        name: st[st.len() - 2].name,
                        canonical: st[st.len() - 2].canonical,
                        source: st[st.len() - 2].source,
                        replay: st[st.len() - 2].replay,
                        imports: st[st.len() - 2].imports,
                        next: st[st.len() - 2].next + 1,
                        acc: st[st.len() - 2].acc + wrap_model(st.last().name, st.last().acc + st.last().own),
                        own: st[st.len() - 2].own,
                    },
                ));
            }
            assert forall|i: int| 0 <= i < self.frames@.len() implies parsable((#[trigger] self.frames@[i]).source@) by {
                if i < self.frames@.len() - 1 {
                    assert(self.frames@[i] == fs[i]);
                }
            }
            assert forall|i: int| 0 <= i < self.frames@.len() implies (#[trigger] self.frames@[i]).next <= self.frames@[i].imports@.len() && (i < self.frames@.len() - 1 ==> self.frames@[i].next < self.frames@[i].imports@.len()) by {
                if i < self.frames@.len() - 1 {
                    assert(self.frames@[i] == fs[i]);
                }
            }
        }
    }
}

impl ModuleLoader {
    /// The index of the latest module loaded from `canonical`.
    fn loaded_index(&self, canonical: &String) -> (r: Option<usize>)
        ensures
            self.loaded().contains(canonical@) <==> r is Some,
            r matches Some(i) ==> i < self.loaded@.len() && self.loaded@[i as int].0@ == canonical@,
            r matches Some(i) ==> latest_source(self.loaded_sources(), canonical@)
                == self.loaded@[i as int].1@,
    {
        let ghost ls = self.loaded_sources();
        let mut i = self.loaded.len();
        assert(ls.take(i as int) =~= ls);
        while i > 0
            invariant
                i <= self.loaded@.len(),
                ls == self.loaded_sources(),
                forall|j: int| i <= j < self.loaded@.len() ==> self.loaded@[j].0@ != canonical@,
                latest_source(ls, canonical@) == latest_source(ls.take(i as int), canonical@),
            decreases i,
        {
            assert(ls.take(i as int).last() == (self.loaded@[i - 1].0@, self.loaded@[i - 1].1@));
            assert(ls.take(i as int).drop_last() =~= ls.take(i - 1));
            if crate::text::str_is(self.loaded[i - 1].0.as_str(), canonical.as_str()) {
                assert(self.loaded()[i - 1] == canonical@);
                return Some(i - 1);
            }
            i -= 1;
        }
        assert forall|j: int| 0 <= j < self.loaded().len() implies self.loaded()[j] != canonical@ by {
            assert(self.loaded()[j] == self.loaded@[j].0@);
        }
        None
    }

    /// The import asked for, written with dots.
    fn requested_dotted(&self) -> (r: String)
        requires
            self.frames@.len() > 0,
            self.frames@.last().next < self.frames@.last().imports@.len(),
        ensures
            r@ == dotted_path(self.requested()),
    {
        let top = self.frames.len() - 1;
        let n = self.frames[top].next;
        let mut r = String::new();
        push_joined(&mut r, &self.frames[top].imports[n].segments, '.');
        r
    }

    /// The last segment of the import asked for.
    fn requested_name(&self) -> (r: String)
        requires
            self.frames@.len() > 0,
            self.frames@.last().next < self.frames@.last().imports@.len(),
        ensures
            r@ == last_segment(self.requested()),
    {
        let top = self.frames.len() - 1;
        let n = self.frames[top].next;
        let segs = &self.frames[top].imports[n].segments;
        if segs.len() > 0 {
            copy_string(&segs[segs.len() - 1])
        } else {
            String::new()
        }
    }

    /// Starts expanding a module: parses its source and moves on to its
    /// first import.
    fn enter(&mut self, name: String, canonical: String, source: String, replay: bool) -> (r: LoadAction)
        requires
            old(self).frames@.len() > 0,
            frames_ok(old(self).frames@),
            old(self).frames@.last().next < old(self).frames@.last().imports@.len(),
            forall|i: int| 0 <= i < old(self).loaded@.len() ==> parsable((#[trigger] old(self).loaded@[i]).1@),
            forall|i: int| 0 <= i < old(self).frames@.len() ==> parsable((#[trigger] old(self).frames@[i]).source@),
            views(old(self).loading@) == open_modules(old(self).stack()) + if replay {
                seq![]
            } else {
                seq![canonical@]
            },
            source@.len() <= usize::MAX / 8,
        ensures
            final(self).wf(),
            final(self).sources() == old(self).sources(),
            r matches LoadAction::Fail(e) ==> (e is LexError || e is Multiple),
            r is Fail <==> parse_fails(source@),
            r matches LoadAction::Fail(e) ==> parse_outcome(source@, Err(e)),
            r is Locate ==> final(self).stage() is Location && r->Locate_file@ == module_file(
                final(self).requested(),
            ),
            r is Done || r is Fail ==> final(self).stage() is Finished,
            !(r is Read),
            !parse_fails(source@) ==> settles_to(
                old(self).stack().push(fresh_frame(name@, canonical@, source@, replay)),
                r,
            ) && final(self).stack() == settle(old(self).stack().push(fresh_frame(name@, canonical@, source@, replay))).0
                && final(self).loaded_sources() == old(self).loaded_sources() + settle(
                old(self).stack().push(fresh_frame(name@, canonical@, source@, replay)),
            ).2,
            r is Locate ==> final(self).loading() == open_modules(final(self).stack()),
    {
        match parse_source(source.as_str()) {
            Err(e) => {
                self.stage = Stage::Finished;
                LoadAction::Fail(e)
            },
            Ok(decls) => {
                let ghost ds = decls@;
                proof {
                    lemma_split_models(ds);
                    assert(decls_model(Seq::<Decl>::empty()) == Seq::<DeclModel>::empty());
                }
                let (imports, own) = split_imports(decls);
                let ghost fs = self.frames@;
                let ghost st0 = self.stack();
                let frame = Frame {
                    name,
                    canonical,
                    source,
                    replay,
                    imports,
                    next: 0,
                    acc: Vec::new(),
                    own,
                };
                assert(frame_model(frame) == fresh_frame(name@, canonical@, source@, replay));
                self.frames.push(frame);
                assert(self.stack() =~= st0.push(fresh_frame(name@, canonical@, source@, replay)));
                assert(self.stack().drop_last() =~= st0);
                assert(open_modules(self.stack()) == open_modules(st0) + if replay {
                    seq![]
                } else {
                    seq![canonical@]
                });
                assert forall|i: int| 0 <= i < self.frames@.len() implies (#[trigger] self.frames@[i]).next <= self.frames@[i].imports@.len() && (i < self.frames@.len() - 1 ==> self.frames@[i].next < self.frames@[i].imports@.len()) by {
                    if i < self.frames@.len() - 1 {
                        assert(self.frames@[i] == fs[i]);
                    }
                }
                assert forall|i: int| 0 <= i < self.frames@.len() implies parsable((#[trigger] self.frames@[i]).source@) by {
                    if i < self.frames@.len() - 1 {
                        assert(self.frames@[i] == fs[i]);
                    }
                }
                self.advance()
            },
        }
    }

    /// Takes the identity and the name of the file of the module asked for:
    /// refuses it when it is being loaded (a circular import), expands it
    /// again when it was loaded before, and otherwise asks for its source.
    pub fn located(&mut self, canonical: String, file: String) -> (r: LoadAction)
        requires
            old(self).wf(),
            old(self).stage() is Location,
        ensures
            final(self).wf(),
            final(self).sources() == old(self).sources(),
            old(self).loading().contains(canonical@) ==> (r matches LoadAction::Fail(
                CompilerError::ModuleError { msg },
            ) && msg@ == circular_message(old(self).requested()) && final(self).stage() is Finished),
            !old(self).loading().contains(canonical@) && !old(self).loaded().contains(canonical@) ==> (
            r matches LoadAction::Read { file: f } && f@ == file@ && final(self).stage() is Source
                && final(self).pending_file() == file@ && final(self).requested() == old(self).requested()
                && final(self).loading() == old(self).loading().push(canonical@)
                && final(self).stack() == old(self).stack() && final(self).pending_canonical()
                == canonical@),
            !old(self).loading().contains(canonical@) && old(self).loaded().contains(canonical@) ==> (
            !(r is Read) && !(r is Fail) && settles_to(
                old(self).stack().push(
                    fresh_frame(
                        last_segment(old(self).requested()),
                        canonical@,
                        latest_source(old(self).loaded_sources(), canonical@),
                        true,
                    ),
                ),
                r,
            ) && final(self).stack() == settle(
                old(self).stack().push(
                    fresh_frame(
                        last_segment(old(self).requested()),
                        canonical@,
                        latest_source(old(self).loaded_sources(), canonical@),
                        true,
                    ),
                ),
            ).0 && final(self).loaded_sources() == old(self).loaded_sources() + settle(
                old(self).stack().push(
                    fresh_frame(
                        last_segment(old(self).requested()),
                        canonical@,
                        latest_source(old(self).loaded_sources(), canonical@),
                        true,
                    ),
                ),
            ).2),
            r is Locate ==> final(self).loading() == open_modules(final(self).stack()),
            r is Locate ==> final(self).stage() is Location && r->Locate_file@ == module_file(
                final(self).requested(),
            ),
            r is Done || r is Fail ==> final(self).stage() is Finished,
    {
        if contains_string(&self.loading, &canonical) {
            let mut msg = String::new();
            msg.append("circular import detected: ");
            let d = self.requested_dotted();
            msg.append(d.as_str());
            self.stage = Stage::Finished;
            return LoadAction::Fail(CompilerError::ModuleError { msg });
        }
        match self.loaded_index(&canonical) {
            Some(k) => {
                let source = copy_string(&self.loaded[k].1);
                let name = self.requested_name();
                self.enter(name, canonical, source, true)
            },
            None => {
                let ghost l0 = self.loading@;
                self.loading.push(copy_string(&canonical));
                assert(self.loading() =~= old(self).loading().push(canonical@));
                self.pending = Some(Pending { canonical, file: copy_string(&file) });
                self.stage = Stage::Source;
                LoadAction::Read { file }
            },
        }
    }

    /// Takes the source of the file asked for (`None` when it cannot be
    /// read): records it and expands the module.
    pub fn read(&mut self, source: Option<String>) -> (r: LoadAction)
        requires
            old(self).wf(),
            old(self).stage() is Source,
            source matches Some(s) ==> s@.len() <= usize::MAX / 8,
        ensures
            final(self).wf(),
            source is None ==> (r matches LoadAction::Fail(CompilerError::ModuleError { msg })
                && msg@ == not_found_message(old(self).requested(), old(self).pending_file())
                && final(self).sources() == old(self).sources() && final(self).stage() is Finished),
            source matches Some(s) ==> final(self).sources() == old(self).sources().push(
                (old(self).pending_file(), s@),
            ),
            source matches Some(s) ==> (r is Fail <==> parse_fails(s@)),
            source matches Some(s) ==> (!parse_fails(s@) ==> settles_to(
                old(self).stack().push(fresh_frame(last_segment(old(self).requested()), old(self).pending_canonical(), s@, false)),
                r,
            ) && final(self).stack() == settle(
                old(self).stack().push(fresh_frame(last_segment(old(self).requested()), old(self).pending_canonical(), s@, false)),
            ).0 && final(self).loaded_sources() == old(self).loaded_sources() + settle(
                old(self).stack().push(fresh_frame(last_segment(old(self).requested()), old(self).pending_canonical(), s@, false)),
            ).2),
            r is Locate ==> final(self).loading() == open_modules(final(self).stack()),
            source matches Some(s) ==> (r matches LoadAction::Fail(e) ==> parse_outcome(s@, Err(e))),
            r matches LoadAction::Fail(e) ==> (e is LexError || e is Multiple || e is ModuleError),
            r is Locate ==> final(self).stage() is Location && r->Locate_file@ == module_file(
                final(self).requested(),
            ),
            r is Done || r is Fail ==> final(self).stage() is Finished,
            !(r is Read),
    {
        let pending = self.pending.take().unwrap();
        match source {
            None => {
                let mut msg = String::new();
                msg.append("module `");
                let d = self.requested_dotted();
                msg.append(d.as_str());
                msg.append("` not found (looked for ");
                msg.append(pending.file.as_str());
                msg.append(")");
                self.stage = Stage::Finished;
                LoadAction::Fail(CompilerError::ModuleError { msg })
            },
            Some(text) => {
                self.record_source(&pending.file, &text);
                self.stage = Stage::Location;
                assert(open_modules(self.stack()).push(pending.canonical@) =~= open_modules(
                    self.stack(),
                ) + seq![pending.canonical@]);
                let name = self.requested_name();
                self.enter(name, pending.canonical, text, false)
            },
        }
    }
}

/// Whether `v` holds `s`.
fn contains_string(v: &Vec<String>, s: &String) -> (r: bool)
    ensures
        r == views(v@).contains(s@),
{
    let mut i: usize = 0;
    while i < v.len()
        invariant
            i <= v@.len(),
            forall|j: int| 0 <= j < i ==> v@[j]@ != s@,
        decreases v.len() - i,
    {
        if crate::text::str_is(v[i].as_str(), s.as_str()) {
            assert(views(v@)[i as int] == s@);
            return true;
        }
        i += 1;
    }
    assert forall|j: int| 0 <= j < views(v@).len() implies views(v@)[j] != s@ by {
        assert(views(v@)[j] == v@[j]@);
    }
    false
}

} // verus!
