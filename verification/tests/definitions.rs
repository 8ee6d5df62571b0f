use lispbm_lsp::definitions::{eval_def_match, Capture, DefMatch, Definition, SourceInfo};

fn cap(index: u32, start_row: usize, start_column: usize, end_row: usize, end_column: usize, text: &str) -> Capture {
    Capture { index, start_row, start_column, end_row, end_column, text: Ok(text.to_string()) }
}

fn source_of(d: &Definition) -> (String, u32, u32, u32) {
    match &d.source {
        SourceInfo::Source { file, line, column, len } => (file.clone(), *line, *column, *len),
        other => panic!("not a source definition: {:?}", other),
    }
}

// "; hello\n(def hello 1)"
#[test]
fn comment_above_definition() {
    let caps = vec![
        cap(0, 0, 0, 0, 7, "; hello"),
        cap(2, 1, 0, 1, 13, "(def hello 1)"),
        cap(1, 1, 5, 1, 10, "hello"),
    ];
    let (name, def) = Definition::from_def_match(&caps, "main.lisp".to_string()).unwrap();
    assert_eq!(name, "hello");
    assert_eq!(def.comment.as_deref(), Some("hello"));
    assert_eq!(source_of(&def), ("main.lisp".to_string(), 1, 5, 5));
}

// "(def hello2 2) ; hello2"
#[test]
fn comment_after_definition_on_same_line() {
    let caps = vec![
        cap(2, 0, 0, 0, 14, "(def hello2 2)"),
        cap(1, 0, 5, 0, 11, "hello2"),
        cap(0, 0, 15, 0, 23, "; hello2"),
    ];
    let (name, def) = Definition::from_def_match(&caps, "main.lisp".to_string()).unwrap();
    assert_eq!(name, "hello2");
    assert_eq!(def.comment.as_deref(), Some("hello2"));
    assert_eq!(source_of(&def), ("main.lisp".to_string(), 0, 5, 6));
}

// "; hello\n(def hello 2) ; hello again": the comment above and the trailing
// one are both doc comments, joined in order.
#[test]
fn trailing_comment_appended_on_one_line() {
    let caps = vec![
        cap(0, 0, 0, 0, 7, "; hello"),
        cap(2, 1, 0, 1, 13, "(def hello 2)"),
        cap(1, 1, 5, 1, 10, "hello"),
        cap(0, 1, 14, 1, 27, "; hello again"),
    ];
    let (_, def) = Definition::from_def_match(&caps, "main.lisp".to_string()).unwrap();
    assert_eq!(def.comment.as_deref(), Some("hello hello again"));
}

// "; above\n(defun f (x)\n  x) ; below": over several lines, the trailing comment is appended.
#[test]
fn trailing_comment_appended_on_multiline_definition() {
    let caps = vec![
        cap(0, 0, 0, 0, 7, "; above"),
        cap(2, 1, 0, 2, 4, "(defun f (x)\n  x)"),
        cap(1, 1, 7, 1, 8, "f"),
        cap(0, 2, 5, 2, 12, "; below"),
    ];
    let (name, def) = Definition::from_def_match(&caps, "f.lisp".to_string()).unwrap();
    assert_eq!(name, "f");
    assert_eq!(def.comment.as_deref(), Some("above below"));
}

#[test]
fn consecutive_comment_lines_are_joined_top_down() {
    let caps = vec![
        cap(0, 0, 0, 0, 8, ";; first"),
        cap(0, 1, 0, 1, 9, ";  second"),
        cap(2, 2, 0, 2, 9, "(def x 1)"),
        cap(1, 2, 5, 2, 6, "x"),
    ];
    let (_, def) = Definition::from_def_match(&caps, "a.lisp".to_string()).unwrap();
    assert_eq!(def.comment.as_deref(), Some("first second"));
}

#[test]
fn comment_separated_by_blank_line_is_ignored() {
    let caps = vec![
        cap(0, 0, 0, 0, 5, "; far"),
        cap(2, 2, 0, 2, 9, "(def x 1)"),
        cap(1, 2, 5, 2, 6, "x"),
    ];
    let (_, def) = Definition::from_def_match(&caps, "a.lisp".to_string()).unwrap();
    assert_eq!(def.comment, None);
}

#[test]
fn empty_comment_lines_add_nothing_but_keep_the_chain() {
    let caps = vec![
        cap(0, 0, 0, 0, 6, "; text"),
        cap(0, 1, 0, 1, 1, ";"),
        cap(2, 2, 0, 2, 9, "(def x 1)"),
        cap(1, 2, 5, 2, 6, "x"),
    ];
    let (_, def) = Definition::from_def_match(&caps, "a.lisp".to_string()).unwrap();
    assert_eq!(def.comment.as_deref(), Some("text"));
}

#[test]
fn two_comments_on_one_line_take_the_last_and_stop() {
    let caps = vec![
        cap(0, 0, 0, 0, 5, "; top"),
        cap(0, 1, 0, 1, 7, "; first"),
        cap(0, 1, 8, 1, 16, "; second"),
        cap(2, 2, 0, 2, 9, "(def x 1)"),
        cap(1, 2, 5, 2, 6, "x"),
    ];
    let (_, def) = Definition::from_def_match(&caps, "a.lisp".to_string()).unwrap();
    assert_eq!(def.comment.as_deref(), Some("second"));
}

#[test]
fn missing_node_capture_fails() {
    let caps = vec![cap(1, 0, 5, 0, 6, "x")];
    let r = Definition::from_def_match(&caps, "a.lisp".to_string());
    assert_eq!(r.unwrap_err(), "Definition match missing name capture");
}

#[test]
fn missing_name_capture_fails() {
    let caps = vec![cap(2, 0, 0, 0, 9, "(def x 1)")];
    let r = Definition::from_def_match(&caps, "a.lisp".to_string());
    assert_eq!(r.unwrap_err(), "Definition match missing name capture");
}

#[test]
fn name_that_is_not_utf8_fails() {
    let caps = vec![
        cap(2, 0, 0, 0, 9, "(def x 1)"),
        Capture { index: 1, start_row: 0, start_column: 5, end_row: 0, end_column: 6, text: Err("bad".to_string()) },
    ];
    let r = Definition::from_def_match(&caps, "a.lisp".to_string());
    assert_eq!(r.unwrap_err(), "bad");
}

#[test]
fn comment_that_is_not_utf8_fails() {
    let caps = vec![
        Capture { index: 0, start_row: 0, start_column: 0, end_row: 0, end_column: 3, text: Err("bad comment".to_string()) },
        cap(2, 1, 0, 1, 9, "(def x 1)"),
        cap(1, 1, 5, 1, 6, "x"),
    ];
    let r = Definition::from_def_match(&caps, "a.lisp".to_string());
    assert_eq!(r.unwrap_err(), "bad comment");
}

#[test]
fn first_captures_of_each_kind_are_used() {
    let caps = vec![
        cap(2, 3, 0, 3, 9, "(def a 1)"),
        cap(1, 3, 5, 3, 6, "a"),
        cap(1, 9, 5, 9, 6, "b"),
        cap(2, 9, 0, 9, 9, "(def b 1)"),
    ];
    let (name, def) = Definition::from_def_match(&caps, "a.lisp".to_string()).unwrap();
    assert_eq!(name, "a");
    assert_eq!(source_of(&def).1, 3);
}

#[test]
fn name_ending_before_it_starts_is_reported() {
    let caps = vec![cap(2, 0, 0, 1, 2, "(def\nx)"), cap(1, 0, 5, 1, 1, "x")];
    assert!(matches!(eval_def_match(&caps, "a.lisp".to_string()), DefMatch::Underflow));
}

#[test]
fn duplicate_comment_lines_at_top_are_reported() {
    let caps = vec![
        cap(0, 0, 0, 0, 3, "; a"),
        cap(0, 0, 4, 0, 7, "; b"),
        cap(2, 1, 0, 1, 9, "(def x 1)"),
        cap(1, 1, 5, 1, 6, "x"),
    ];
    assert!(matches!(eval_def_match(&caps, "a.lisp".to_string()), DefMatch::Underflow));
}

#[test]
fn parse_definitions_groups_by_name_in_order() {
    let matches = vec![
        vec![cap(0, 0, 0, 0, 7, "; hello"), cap(2, 1, 0, 1, 13, "(def hello 1)"), cap(1, 1, 5, 1, 10, "hello")],
        vec![cap(2, 2, 0, 2, 13, "(def hello 2)"), cap(1, 2, 5, 2, 10, "hello"), cap(0, 2, 14, 2, 27, "; hello again")],
        vec![cap(2, 3, 0, 3, 9, "(def y 3)"), cap(1, 3, 5, 3, 6, "y")],
    ];
    let defs = Definition::parse_definitions(&matches, "main.lisp").unwrap();
    assert_eq!(defs.len(), 2);
    assert_eq!(defs.key_at(0), "hello");
    let hello = defs.get("hello").unwrap();
    assert_eq!(hello.len(), 2);
    assert_eq!(hello[0].comment.as_deref(), Some("hello"));
    assert_eq!(hello[1].comment.as_deref(), Some("hello again"));
    assert_eq!(source_of(&hello[1]), ("main.lisp".to_string(), 2, 5, 5));
    let y = defs.get("y").unwrap();
    assert_eq!(y.len(), 1);
    assert_eq!(y[0].comment, None);
}
