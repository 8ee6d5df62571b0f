use lispbm_lsp::builtin::Builtin;
use lispbm_lsp::definitions::{Capture, SourceInfo};
use lispbm_lsp::entry::{Definition, DefinitionFile, EntryFile, Extension};
use lispbm_lsp::state::{DiagnosticsPlan, EntryId, FileId, IndexPlan, NodeInfo, State, SyntaxNode, UpdatePlan};

fn cap(index: u32, start_row: usize, start_column: usize, end_row: usize, end_column: usize, text: &str) -> Capture {
    Capture { index, start_row, start_column, end_row, end_column, text: Ok(text.to_string()) }
}

fn fid(s: &str) -> FileId {
    FileId(s.to_string())
}

fn node(row: usize, start: usize, end: usize, text: &str) -> Option<NodeInfo> {
    Some(NodeInfo { start_row: row, start_column: start, end_column: end, text: Ok(text.to_string()) })
}

/// "; hello\n(def hello 1)\n(def hello 2) ; hello again\n\n(hello)"
fn hello_matches() -> Vec<Vec<Capture>> {
    vec![
        vec![cap(0, 0, 0, 0, 7, "; hello"), cap(2, 1, 0, 1, 13, "(def hello 1)"), cap(1, 1, 5, 1, 10, "hello")],
        vec![cap(2, 2, 0, 2, 13, "(def hello 2)"), cap(1, 2, 5, 2, 10, "hello"), cap(0, 2, 14, 2, 27, "; hello again")],
    ]
}

const HELLO: &str = "; hello\n(def hello 1)\n(def hello 2) ; hello again\n\n(hello)";

fn indexed_state() -> State {
    let mut s = State::new();
    s.set_root("/ws".to_string());
    s.index_lisp_file(&fid("/ws/main.lisp"), HELLO.to_string(), &hello_matches());
    s
}

#[test]
fn hover_merges_comments_of_all_definitions() {
    let s = indexed_state();
    let hover = s.handle_hover(&fid("/ws/main.lisp"), &node(4, 1, 6, "hello")).unwrap().unwrap();
    assert_eq!(hover.text, "hello\n\n__main.lisp__\n\n---\n\nhello again\n\n__main.lisp__");
    assert_eq!((hover.line, hover.start, hover.end), (4, 1, 6));
}

#[test]
fn goto_definition_lists_all_definitions() {
    let s = indexed_state();
    let locs = s.handle_definition(&fid("/ws/main.lisp"), &Some(Ok("hello".to_string()))).unwrap();
    assert_eq!(locs.len(), 2);
    assert_eq!((locs[0].file.as_str(), locs[0].line, locs[0].start, locs[0].end), ("/ws/main.lisp", 1, 5, 10));
    assert_eq!((locs[1].file.as_str(), locs[1].line, locs[1].start, locs[1].end), ("/ws/main.lisp", 2, 5, 10));
}

#[test]
fn requests_on_unknown_files_fail() {
    let s = indexed_state();
    assert_eq!(s.handle_definition(&fid("/ws/other.lisp"), &None).unwrap_err(), "File not found in state");
    assert_eq!(s.handle_hover(&fid("/ws/other.lisp"), &None).unwrap_err(), "File not found");
}

#[test]
fn hover_without_definitions_or_node_is_empty() {
    let s = indexed_state();
    assert!(s.handle_hover(&fid("/ws/main.lisp"), &node(1, 1, 4, "def")).unwrap().is_none());
    assert!(s.handle_hover(&fid("/ws/main.lisp"), &None).unwrap().is_none());
    assert!(s.get_definition(&Some(Err("bad".to_string()))).is_empty());
    assert!(s.get_definition(&None).is_empty());
}

#[test]
fn definitions_from_several_files_are_all_listed() {
    let mut s = indexed_state();
    let helpers = DefinitionFile {
        definitions: vec![Definition::Full { name: "hello".to_string(), comment: Some("from helpers".to_string()) }],
    };
    s.index_collection_file(&fid("/ws/lib/helpers.toml"), "definitions = []".to_string(), &helpers);
    let defs = s.get_definition(&Some(Ok("hello".to_string())));
    assert_eq!(defs.len(), 3);
    assert_eq!(defs[2].comment.as_deref(), Some("from helpers"));
    let hover = s.handle_hover(&fid("/ws/main.lisp"), &node(4, 1, 6, "hello")).unwrap().unwrap();
    assert_eq!(
        hover.text,
        "hello\n\n__main.lisp__\n\n---\n\nhello again\n\n__main.lisp__\n\n---\n\nfrom helpers\n\n__lib/helpers.toml__"
    );
    // goto-definition only answers definitions in source files
    assert_eq!(s.handle_definition(&fid("/ws/main.lisp"), &Some(Ok("hello".to_string()))).unwrap().len(), 2);
}

#[test]
fn hover_labels_builtins_and_comment_less_definitions() {
    let mut s = State::new();
    s.set_root("/ws".to_string());
    let entry = EntryFile {
        entry_point: "/ws/main.lisp".to_string(),
        extension: vec![Extension::Inline(vec![Definition::Inline("bare".to_string())])],
    };
    s.index_entry_file(&EntryId("/ws/entry.toml".to_string()), &fid("/ws/entry.toml"), "entry".to_string(), entry);
    let hover = s.handle_hover(&fid("/ws/entry.toml"), &node(0, 0, 4, "bare")).unwrap().unwrap();
    assert_eq!(hover.text, "\n\n__main.lisp__");
    assert_eq!(s.entry_files.len(), 1);
    assert_eq!(s.entry_files.key_at(0), "/ws/entry.toml");
}

#[test]
fn update_replaces_a_files_definitions() {
    let mut s = indexed_state();
    assert_eq!(s.update_plan(&fid("/ws/main.lisp")), UpdatePlan::LispFile);
    let new_matches = vec![vec![cap(2, 0, 0, 0, 13, "(def hello 3)"), cap(1, 0, 5, 0, 10, "hello"), cap(0, 0, 14, 0, 19, "; new")]];
    s.update_lisp_definitions(&fid("/ws/main.lisp"), "(def hello 3) ; new".to_string(), &new_matches);
    let defs = s.get_definition(&Some(Ok("hello".to_string())));
    assert_eq!(defs.len(), 1);
    assert_eq!(defs[0].comment.as_deref(), Some("new"));
    let f = s.files.get("/ws/main.lisp").unwrap();
    assert_eq!(f.content, "(def hello 3) ; new");
    assert_eq!(f.tree.as_deref(), Some(HELLO));
    assert_eq!(f.definitions.len(), 0);
}

#[test]
fn update_keeps_symbols_no_longer_defined() {
    let mut s = indexed_state();
    let new_matches = vec![vec![cap(2, 0, 0, 0, 9, "(def z 3)"), cap(1, 0, 5, 0, 6, "z")]];
    s.update_lisp_definitions(&fid("/ws/main.lisp"), "(def z 3)".to_string(), &new_matches);
    assert_eq!(s.get_definition(&Some(Ok("hello".to_string()))).len(), 2);
    assert_eq!(s.get_definition(&Some(Ok("z".to_string()))).len(), 1);
}

#[test]
fn update_of_unknown_file_changes_nothing() {
    let mut s = indexed_state();
    assert_eq!(s.update_plan(&fid("/ws/new.lisp")), UpdatePlan::NotIndexed);
    s.update_lisp_definitions(&fid("/ws/new.lisp"), "(def q 1)".to_string(), &vec![]);
    assert_eq!(s.files.len(), 1);
}

#[test]
fn update_of_entry_and_collection_files() {
    let mut s = State::new();
    let entry = EntryFile { entry_point: "/ws/main.lisp".to_string(), extension: vec![] };
    s.index_entry_file(&EntryId("/ws/entry.toml".to_string()), &fid("/ws/entry.toml"), "".to_string(), entry);
    assert_eq!(s.update_plan(&fid("/ws/entry.toml")), UpdatePlan::EntryFile);
    let entry2 = EntryFile {
        entry_point: "/ws/main.lisp".to_string(),
        extension: vec![Extension::Inline(vec![Definition::Inline("k".to_string())])],
    };
    s.update_entry_definitions(&fid("/ws/entry.toml"), "new".to_string(), entry2);
    assert_eq!(s.get_definition(&Some(Ok("k".to_string()))).len(), 1);
    assert_eq!(s.entry_files.get("/ws/entry.toml").unwrap().extension.len(), 1);

    s.index_collection_file(&fid("/ws/c.toml"), "".to_string(), &DefinitionFile { definitions: vec![] });
    assert_eq!(s.update_plan(&fid("/ws/c.toml")), UpdatePlan::CollectionFile);
    s.update_collection_definitions(
        &fid("/ws/c.toml"),
        "x".to_string(),
        &DefinitionFile { definitions: vec![Definition::Inline("m".to_string())] },
    );
    match &s.get_definition(&Some(Ok("m".to_string())))[0].source {
        SourceInfo::Collection { path } => assert_eq!(path, "/ws/c.toml"),
        other => panic!("{:?}", other),
    }
}

#[test]
fn index_plans() {
    assert_eq!(State::index_plan("/ws/main.lisp"), IndexPlan::LispFile);
    assert_eq!(State::index_plan("/ws/main.lsp"), IndexPlan::LispFile);
    assert_eq!(State::index_plan("/ws/main.lispbm"), IndexPlan::UnsupportedExtension);
    assert_eq!(State::index_plan("/ws/entry.toml"), IndexPlan::EntryFile);
    assert_eq!(State::index_plan("lbm.builtin.ext.toml"), IndexPlan::BuiltinFile(Builtin::Lbm));
    assert_eq!(State::index_plan("/x/vesc-ble.builtin.ext.toml"), IndexPlan::BuiltinFile(Builtin::VescBle));
    assert_eq!(State::index_plan("core.builtin.ext.toml"), IndexPlan::UnsupportedBuiltin);
    assert_eq!(State::index_plan("/ws/helpers.toml"), IndexPlan::CollectionFile);
    assert_eq!(State::index_plan("/ws/README"), IndexPlan::UnsupportedExtension);
}

#[test]
fn new_entry_imports_entry_point_extensions_and_itself() {
    let mut s = State::new();
    let id = EntryId("/ws/entry.toml".to_string());
    let entry = EntryFile {
        entry_point: "/ws/main.lisp".to_string(),
        extension: vec![Extension::Builtin(Builtin::Lbm), Extension::Inline(vec![])],
    };
    assert!(s.new_entry(&id, &entry, vec![]));
    assert_eq!(
        s.files_of_entry(&id),
        vec!["/ws/main.lisp".to_string(), "lbm.builtin.ext.toml".to_string(), "/ws/entry.toml".to_string()]
    );
}

#[test]
fn new_entry_without_entry_directory_changes_nothing() {
    let mut s = State::new();
    let id = EntryId("entry.toml".to_string());
    let entry = EntryFile { entry_point: "".to_string(), extension: vec![] };
    assert!(!s.new_entry(&id, &entry, vec!["a.lisp".to_string()]));
    assert!(s.files_of_entry(&id).is_empty());
}

#[test]
fn import_files_adds_each_file_once() {
    let mut s = State::new();
    let id = EntryId("e".to_string());
    s.import_files(&vec!["a".to_string(), "b".to_string(), "a".to_string()], &id);
    s.import_files(&vec!["b".to_string(), "c".to_string()], &id);
    assert_eq!(s.files_of_entry(&id), vec!["a".to_string(), "b".to_string(), "c".to_string()]);
    assert!(s.files_of_entry(&EntryId("other".to_string())).is_empty());
}

#[test]
fn diagnostics_plans() {
    let mut s = State::new();
    s.index_lisp_file(&fid("/ws/main.lisp"), HELLO.to_string(), &hello_matches());
    assert!(matches!(s.begin_diagnostics(&fid("/ws/main.lisp"), "(", true), DiagnosticsPlan::NoRoot));
    s.set_root("/ws".to_string());
    match s.begin_diagnostics(&fid("/ws/main.lisp"), "(def", true) {
        DiagnosticsPlan::Query(t) => assert_eq!(t, "(def"),
        other => panic!("{:?}", other),
    }
    match s.begin_diagnostics(&fid("/ws/main.lisp"), "ignored", false) {
        DiagnosticsPlan::Query(t) => assert_eq!(t, "(def"),
        other => panic!("{:?}", other),
    }
    assert!(matches!(s.begin_diagnostics(&fid("/ws/x.lisp"), "(", true), DiagnosticsPlan::NotIndexed));
}

#[test]
fn diagnostics_messages() {
    let nodes = vec![
        vec![SyntaxNode { kind: "ERROR".to_string(), start_row: 0, start_column: 0, end_row: 0, end_column: 4, text: Some("(def".to_string()) }],
        vec![
            SyntaxNode { kind: "MISSING".to_string(), start_row: 1, start_column: 2, end_row: 1, end_column: 2, text: None },
            SyntaxNode { kind: ")".to_string(), start_row: 3, start_column: 1, end_row: 4, end_column: 0, text: Some("".to_string()) },
        ],
    ];
    let diags = State::diagnostics_from(&nodes);
    assert_eq!(diags.len(), 3);
    assert_eq!(diags[0].message, "ERROR: (def");
    assert_eq!((diags[0].start_line, diags[0].start_character, diags[0].end_line, diags[0].end_character), (0, 0, 0, 4));
    assert_eq!(diags[1].message, "MISSING: ");
    assert_eq!((diags[2].start_line, diags[2].end_line), (3, 4));
}
