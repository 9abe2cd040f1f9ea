use tudu::scan::{find_todos_in_content, line_is_candidate, should_scan_file};
use tudu::{TodoAttributeValue, TodoReference};

#[test]
fn scannable_extensions_are_recognized() {
    assert!(should_scan_file("src/main.rs"));
    assert!(should_scan_file("lib/util.py"));
    assert!(should_scan_file("doc/notes.md"));
    assert!(should_scan_file("style.scss"));
    assert!(should_scan_file("deep/nested/dir/file.yaml"));
}

#[test]
fn unscannable_paths_are_rejected() {
    assert!(!should_scan_file("picture.png"));
    assert!(!should_scan_file("no_extension"));
    assert!(!should_scan_file(".gitignore"));
    assert!(!should_scan_file("archive.tar.gz"));
    assert!(!should_scan_file("upper.RS"));
    assert!(!should_scan_file("trailing.dot."));
}

#[test]
fn candidate_lines_need_a_comment_leader() {
    assert!(line_is_candidate("// TODO: x"));
    assert!(line_is_candidate("/* FIXME later */"));
    assert!(line_is_candidate("# todo lower case"));
    assert!(line_is_candidate("<!-- FiXmE html -->"));
    assert!(line_is_candidate("code(); // TODO trailing"));
    assert!(line_is_candidate("//TODO no space"));
    assert!(!line_is_candidate("plain TODO without leader"));
    assert!(!line_is_candidate("// TO DO split"));
    assert!(!line_is_candidate("// nothing here"));
}

#[test]
fn content_scan_collects_candidate_lines() {
    let contents = "fn main() {}\n  // TODO(TASK-1): first\nlet x = 1;\n# FIXME: second\n";
    let todos = find_todos_in_content(contents, "src/demo.rs");
    assert_eq!(todos.len(), 2);

    assert_eq!(todos[0].file_path, "src/demo.rs");
    assert_eq!(todos[0].line_number, 2);
    assert_eq!(todos[0].line_content, "// TODO(TASK-1): first");
    match &todos[0].reference {
        Some(TodoReference::TrackedId(id)) => assert_eq!(id, "TASK-1"),
        _ => panic!("Expected Tracked with ID TASK-1"),
    }
    assert!(todos[0].attributes.is_none());

    assert_eq!(todos[1].line_number, 4);
    assert_eq!(todos[1].line_content, "# FIXME: second");
    assert!(matches!(
        todos[1].reference,
        Some(TodoReference::Untracked)
    ));
}

#[test]
fn content_scan_keeps_attributes() {
    let contents = "// TODO(BUG-9, bidir): tagged\n";
    let todos = find_todos_in_content(contents, "a.c");
    assert_eq!(todos.len(), 1);
    let attrs = todos[0].attributes.as_ref().unwrap();
    assert_eq!(attrs.get("bidir"), Some(&TodoAttributeValue::Flag(true)));
}

#[test]
fn content_scan_handles_crlf_and_final_line() {
    let contents = "// TODO: one\r\n// FIXME: two";
    let todos = find_todos_in_content(contents, "x.go");
    assert_eq!(todos.len(), 2);
    assert_eq!(todos[0].line_content, "// TODO: one");
    assert_eq!(todos[1].line_number, 2);
    assert_eq!(todos[1].line_content, "// FIXME: two");
}

#[test]
fn lowercase_marker_is_detected_but_yields_no_reference() {
    let contents = "# todo: informal note\n";
    let todos = find_todos_in_content(contents, "notes.py");
    assert_eq!(todos.len(), 1);
    assert!(todos[0].reference.is_none());
    assert!(todos[0].attributes.is_none());
}

#[test]
fn empty_content_yields_no_items() {
    let todos = find_todos_in_content("", "empty.rs");
    assert!(todos.is_empty());
}
