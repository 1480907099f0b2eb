use std::collections::HashMap;

use lustc::ast::Decl;
use lustc::error::CompilerError;
use lustc::loader::{split_imports, LoadAction, ModuleLoader, Stage};

/// Runs the loader over an in-memory set of files.
fn load(files: &[(&str, &str)], entry: &str) -> (Result<Vec<Decl>, CompilerError>, Vec<(String, String)>) {
    let fs: HashMap<&str, &str> = files.iter().cloned().collect();
    let mut loader = ModuleLoader::new();
    assert_eq!(loader.awaiting(), Stage::Start);
    let mut action = loader.start(entry.to_string(), fs[entry].to_string());
    let mut located: Option<String> = None;
    loop {
        action = match action {
            LoadAction::Locate { file } => {
                located = Some(file.clone());
                loader.located(file.clone(), file)
            }
            LoadAction::Read { file } => {
                assert_eq!(Some(file.clone()), located.take());
                loader.read(fs.get(file.as_str()).map(|s| s.to_string()))
            }
            LoadAction::Done(decls) => return (Ok(decls), loader.file_sources.clone()),
            LoadAction::Fail(e) => return (Err(e), loader.file_sources.clone()),
        };
    }
}

fn names(decls: &[Decl]) -> Vec<String> {
    decls
        .iter()
        .map(|d| match d {
            Decl::FunDef { name, .. } => name.clone(),
            Decl::Namespace { name, decls } => format!("{}{:?}", name, names(decls)),
            Decl::Eval(_) => "#eval".to_string(),
            other => format!("{:?}", other),
        })
        .collect()
}

#[test]
fn loader_wraps_imported_module_in_namespace() {
    let (r, sources) = load(
        &[("Helpers.lean", "def greet : Nat := 99\n"), ("main.lean", "import Helpers\n#eval 1\n")],
        "main.lean",
    );
    let decls = r.unwrap();
    assert_eq!(names(&decls), vec!["Helpers[\"greet\"]".to_string(), "#eval".to_string()]);
    let files: Vec<&str> = sources.iter().map(|(f, _)| f.as_str()).collect();
    assert_eq!(files, vec!["main.lean", "Helpers.lean"]);
}

#[test]
fn loader_nested_paths_use_last_segment() {
    let (r, _) = load(
        &[("Utils/Math.lean", "def add (x : Nat) : Nat := x\n"), ("main.lean", "import Utils.Math\n")],
        "main.lean",
    );
    assert_eq!(names(&r.unwrap()), vec!["Math[\"add\"]".to_string()]);
}

#[test]
fn loader_reports_circular_import() {
    let (r, _) = load(
        &[("A.lean", "import B\n"), ("B.lean", "import A\n"), ("main.lean", "import A\n#eval 1\n")],
        "main.lean",
    );
    match r {
        Err(CompilerError::ModuleError { msg }) => assert_eq!(msg, "circular import detected: A"),
        other => panic!("expected a circular import error, got {:?}", other.map(|d| names(&d))),
    }
}

#[test]
fn loader_reports_missing_module() {
    let (r, _) = load(&[("main.lean", "import NonExistent\n#eval 1\n")], "main.lean");
    match r {
        Err(CompilerError::ModuleError { msg }) => {
            assert_eq!(msg, "module `NonExistent` not found (looked for NonExistent.lean)")
        }
        other => panic!("expected a missing module error, got {:?}", other.map(|d| names(&d))),
    }
}

#[test]
fn loader_reuses_module_imported_twice() {
    let (r, sources) = load(
        &[
            ("D.lean", "def d : Nat := 1\n"),
            ("A.lean", "import D\ndef a : Nat := 2\n"),
            ("B.lean", "import D\ndef b : Nat := 3\n"),
            ("main.lean", "import A\nimport B\n"),
        ],
        "main.lean",
    );
    assert_eq!(
        names(&r.unwrap()),
        vec![
            "A[\"D[\\\"d\\\"]\", \"a\"]".to_string(),
            "B[\"D[\\\"d\\\"]\", \"b\"]".to_string(),
        ]
    );
    let files: Vec<&str> = sources.iter().map(|(f, _)| f.as_str()).collect();
    assert_eq!(files, vec!["main.lean", "A.lean", "D.lean", "B.lean"]);
}

#[test]
fn loader_passes_parse_errors_on() {
    let (r, _) = load(&[("main.lean", "def := 1\n")], "main.lean");
    assert!(matches!(r, Err(CompilerError::Multiple(_))));
}

#[test]
fn split_imports_keeps_order() {
    let mut lexer = lustc::lexer::Lexer::new("import A\ndef x : Nat := 1\nimport B.C\n#eval x\n");
    let tokens = lexer.tokenize().unwrap();
    let mut parser = lustc::parser::Parser::new(tokens);
    let decls = parser.parse_program().unwrap();
    let (imports, own) = split_imports(decls);
    let paths: Vec<Vec<String>> = imports.iter().map(|p| p.segments.clone()).collect();
    assert_eq!(paths, vec![vec!["A".to_string()], vec!["B".to_string(), "C".to_string()]]);
    assert_eq!(names(&own), vec!["x".to_string(), "#eval".to_string()]);
}
