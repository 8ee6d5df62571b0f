use lispbm_lsp::builtin::Builtin;
use lispbm_lsp::definitions::SourceInfo;
use lispbm_lsp::entry::{import_targets, Definition, DefinitionFile, EntryFile, Extension, ImportError, LoadedExtension};

fn full(name: &str, comment: Option<&str>) -> Definition {
    Definition::Full { name: name.to_string(), comment: comment.map(|c| c.to_string()) }
}

fn inline(name: &str) -> Definition {
    Definition::Inline(name.to_string())
}

#[test]
fn definition_file_get_definitions() {
    let file = DefinitionFile {
        definitions: vec![full("hello", Some("hello world function")), inline("bare"), full("hello", Some("again"))],
    };
    let defs = file.get_definitions("/ws/helpers.toml");
    assert_eq!(defs.len(), 2);
    assert_eq!(defs.key_at(0), "hello");
    let hello = defs.get("hello").unwrap();
    assert_eq!(hello.len(), 2);
    assert_eq!(hello[0].comment.as_deref(), Some("hello world function"));
    assert_eq!(hello[1].comment.as_deref(), Some("again"));
    for d in hello {
        match &d.source {
            SourceInfo::Collection { path } => assert_eq!(path, "/ws/helpers.toml"),
            other => panic!("{:?}", other),
        }
    }
    let bare = defs.get("bare").unwrap();
    assert_eq!(bare.len(), 1);
    assert_eq!(bare[0].comment, None);
}

#[test]
fn collection_listing_a_name_twice_keeps_both() {
    let file = DefinitionFile { definitions: vec![full("a", Some("x")), inline("a")] };
    let defs = file.get_definitions("/p/h.toml");
    assert_eq!(defs.len(), 1);
    let a = defs.get("a").unwrap();
    assert_eq!(a.len(), 2);
    assert_eq!(a[0].comment.as_deref(), Some("x"));
    assert_eq!(a[1].comment, None);
    for d in a {
        assert!(matches!(&d.source, SourceInfo::Collection { path } if path == "/p/h.toml"));
    }
}

#[test]
fn inline_definitions_of_entry() {
    let entry = EntryFile {
        entry_point: "/ws/main.lisp".to_string(),
        extension: vec![
            Extension::Builtin(Builtin::Lbm),
            Extension::Inline(vec![full("hello", Some("A simple greeting function")), full("hello2", None)]),
            Extension::Collection("../helpers.toml".to_string()),
            Extension::Inline(vec![inline("hello3"), full("hello", Some("again"))]),
        ],
    };
    let defs = entry.get_ext_inline_definitions();
    assert_eq!(defs.len(), 3);
    assert_eq!(defs.key_at(0), "hello");
    assert_eq!(defs.key_at(2), "hello3");
    let hello = defs.get("hello").unwrap();
    assert_eq!(hello.len(), 2);
    assert_eq!(hello[0].comment.as_deref(), Some("A simple greeting function"));
    assert_eq!(hello[1].comment.as_deref(), Some("again"));
    match &hello[0].source {
        SourceInfo::Collection { path } => assert_eq!(path, "/ws/main.lisp"),
        other => panic!("{:?}", other),
    }
    assert!(defs.get("hello2").unwrap()[0].comment.is_none());
}

#[test]
fn inline_only_entry_definitions_agree_with_all_extension_definitions() {
    let entry = EntryFile {
        entry_point: "/ws/main.lisp".to_string(),
        extension: vec![
            Extension::Inline(vec![full("a", Some("first")), inline("b")]),
            Extension::Inline(vec![full("a", Some("second"))]),
        ],
    };
    let inline_defs = entry.get_ext_inline_definitions();
    let all_defs = entry.get_all_ext_definitions(&vec![LoadedExtension::Inline, LoadedExtension::Inline]);
    assert_eq!(format!("{:?}", inline_defs), format!("{:?}", all_defs));
    assert_eq!(all_defs.get("a").unwrap().len(), 2);
}

#[test]
fn adding_an_extension_extends_each_list() {
    let before = EntryFile {
        entry_point: "/ws/main.lisp".to_string(),
        extension: vec![Extension::Inline(vec![full("a", Some("first")), inline("b")])],
    };
    let after = EntryFile {
        entry_point: "/ws/main.lisp".to_string(),
        extension: vec![
            Extension::Inline(vec![full("a", Some("first")), inline("b")]),
            Extension::Builtin(Builtin::Math),
        ],
    };
    let r1 = before.get_all_ext_definitions(&vec![LoadedExtension::Inline]);
    let r2 = after.get_all_ext_definitions(&vec![
        LoadedExtension::Inline,
        LoadedExtension::Builtin(DefinitionFile { definitions: vec![full("a", Some("math a")), inline("c")] }),
    ]);
    for i in 0..r1.len() {
        let name = r1.key_at(i);
        let old = r1.get(name).unwrap();
        let new = r2.get(name).unwrap();
        assert!(old.len() <= new.len());
        assert_eq!(format!("{:?}", old), format!("{:?}", &new[..old.len()]));
    }
    assert_eq!(r2.get("a").unwrap().len(), 2);
    assert_eq!(r2.get("a").unwrap()[1].comment.as_deref(), Some("math a"));
    assert_eq!(r2.len(), 3);
}

#[test]
fn collection_paths_join_the_directory() {
    let entry = EntryFile {
        entry_point: "/ws/main.lisp".to_string(),
        extension: vec![
            Extension::Collection("lib/helpers.toml".to_string()),
            Extension::Builtin(Builtin::Lbm),
            Extension::Inline(vec![]),
            Extension::Collection("/abs/other.toml".to_string()),
        ],
    };
    let paths = entry.collection_paths("/ws");
    assert_eq!(
        paths,
        vec![Some("/ws/lib/helpers.toml".to_string()), None, None, Some("/abs/other.toml".to_string())]
    );
}

#[test]
fn import_targets_join_the_directory() {
    let targets = import_targets("/ws", &vec!["a.lisp".to_string(), "sub/b.lisp".to_string()]);
    assert_eq!(targets, vec!["/ws/a.lisp".to_string(), "/ws/sub/b.lisp".to_string()]);
    assert!(import_targets("/ws", &vec![]).is_empty());
}

#[test]
fn ext_imports_without_collections() {
    let entry = EntryFile {
        entry_point: "/ws/main.lisp".to_string(),
        extension: vec![Extension::Builtin(Builtin::Math), Extension::Inline(vec![]), Extension::Builtin(Builtin::VescBle)],
    };
    let imports = entry.get_ext_imports("/ws/entry.toml").unwrap();
    assert_eq!(imports, vec!["math.builtin.ext.toml".to_string(), "/ws/main.lisp".to_string(), "vesc-ble.builtin.ext.toml".to_string()]);
}

#[test]
fn ext_imports_resolve_collections_against_entry_file_directory() {
    let entry = EntryFile { entry_point: "/usr/main.lisp".to_string(), extension: vec![Extension::Collection("/".to_string())] };
    let imports = entry.get_ext_imports("/usr/entry.toml").unwrap();
    assert_eq!(imports, vec!["/".to_string()]);
    let entry = EntryFile { entry_point: "/main.lisp".to_string(), extension: vec![Extension::Collection(".".to_string())] };
    let imports = entry.get_ext_imports("/entry.toml").unwrap();
    assert_eq!(imports, vec!["/".to_string()]);
}

#[test]
fn ext_imports_use_entry_file_directory_not_entry_point_directory() {
    let entry = EntryFile {
        entry_point: "/main.lisp".to_string(),
        extension: vec![Extension::Collection("..".to_string()), Extension::Inline(vec![])],
    };
    let imports = entry.get_ext_imports("/usr/lib/entry.toml").unwrap();
    assert_eq!(imports, vec!["/usr".to_string(), "/main.lisp".to_string()]);
}

#[test]
fn ext_imports_fail_on_unresolvable_collection() {
    let entry = EntryFile {
        entry_point: "/ws/main.lisp".to_string(),
        extension: vec![Extension::Builtin(Builtin::Lbm), Extension::Collection("does/not/exist.toml".to_string())],
    };
    assert!(matches!(entry.get_ext_imports("/ws/entry.toml"), Err(ImportError::Io(_))));
}

#[test]
fn ext_imports_fail_without_entry_directory() {
    let entry = EntryFile { entry_point: "/ws/main.lisp".to_string(), extension: vec![Extension::Collection("x.toml".to_string())] };
    assert!(matches!(entry.get_ext_imports(""), Err(ImportError::IsADirectory)));
}

#[test]
fn lisp_imports_keep_resolved_lisp_files() {
    let resolved = vec![
        Ok("/ws/a.lisp".to_string()),
        Ok("/ws/b.lispbm".to_string()),
        Ok("/ws/c.toml".to_string()),
        Err("missing".to_string()),
        Ok("/ws/lisp".to_string()),
        Ok("/ws/d.lisp".to_string()),
    ];
    let kept = EntryFile::lisp_imports_from(&resolved);
    assert_eq!(kept, vec!["/ws/a.lisp".to_string(), "/ws/b.lispbm".to_string(), "/ws/d.lisp".to_string()]);
}

#[test]
fn all_imports_of_unreadable_entry_point() {
    let entry = EntryFile { entry_point: "/ws/main.lisp".to_string(), extension: vec![] };
    assert_eq!(entry.get_all_imports(None), None);
    assert_eq!(entry.get_all_imports(Some(vec![])), Some(vec![]));
    assert_eq!(entry.get_all_imports(Some(vec!["does-not-exist.lisp".to_string()])), Some(vec![]));
}

#[test]
fn all_ext_definitions_accumulate() {
    let entry = EntryFile {
        entry_point: "/ws/main.lisp".to_string(),
        extension: vec![
            Extension::Collection("helpers.toml".to_string()),
            Extension::Builtin(Builtin::Lbm),
            Extension::Inline(vec![full("f", Some("inline f"))]),
            Extension::Collection("missing.toml".to_string()),
        ],
    };
    let loaded = vec![
        LoadedExtension::Collection(Some((
            "/ws/helpers.toml".to_string(),
            DefinitionFile { definitions: vec![full("f", Some("collection f")), inline("g")] },
        ))),
        LoadedExtension::Builtin(DefinitionFile { definitions: vec![full("f", Some("builtin f"))] }),
        LoadedExtension::Inline,
        LoadedExtension::Collection(None),
    ];
    let defs = entry.get_all_ext_definitions(&loaded);
    assert_eq!(defs.len(), 2);
    let f = defs.get("f").unwrap();
    assert_eq!(f.len(), 3);
    assert_eq!(f[0].comment.as_deref(), Some("collection f"));
    assert_eq!(f[1].comment.as_deref(), Some("builtin f"));
    assert_eq!(f[2].comment.as_deref(), Some("inline f"));
    assert!(matches!(&f[1].source, SourceInfo::Builtin { name: Builtin::Lbm }));
    match &f[2].source {
        SourceInfo::Collection { path } => assert_eq!(path, "/ws/main.lisp"),
        other => panic!("{:?}", other),
    }
    match &defs.get("g").unwrap()[0].source {
        SourceInfo::Collection { path } => assert_eq!(path, "/ws/helpers.toml"),
        other => panic!("{:?}", other),
    }
}
