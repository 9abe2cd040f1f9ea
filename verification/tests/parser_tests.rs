use tudu::parser::{
    is_valid_id, parse_attributes_from_string, parse_todo_attributes, parse_todo_reference,
};
use tudu::{TodoAttributeValue, TodoReference};

#[test]
fn test_parse_untracked() {
    let line = "// TODO: Refactor this function";
    let result = parse_todo_reference(line);
    match result {
        Some(TodoReference::Untracked) => {}
        _ => panic!("Expected Untracked"),
    }
}

#[test]
fn test_parse_tracked() {
    let line = "// TODO(BUG-123): Refactor this function";
    let result = parse_todo_reference(line);
    match result {
        Some(TodoReference::TrackedId(id)) => {
            assert_eq!(id, "BUG-123");
        }
        _ => panic!("Expected Tracked with ID BUG-123"),
    }
}

#[test]
fn test_parse_with_attributes() {
    let line = "// TODO(TASK-123, bidir): Implement feature";
    let result = parse_todo_reference(line);
    match result {
        Some(TodoReference::TrackedId(id)) => {
            assert_eq!(id, "TASK-123");
        }
        _ => panic!("Expected Tracked with ID TASK-123"),
    }
}

#[test]
fn test_parse_empty_parens() {
    let line = "// TODO(): Empty parens";
    let result = parse_todo_reference(line);
    assert!(matches!(result, Some(TodoReference::Untracked)));
}

#[test]
fn test_parse_person_name() {
    let line = "// TODO(alice): Review this";
    let result = parse_todo_reference(line);
    assert!(matches!(result, Some(TodoReference::Untracked)));
}

#[test]
fn test_valid_ids() {
    let valid_ids = vec!["TASK-1", "BUG-123", "FEATURE-4567"];
    for id in valid_ids {
        assert!(is_valid_id(id), "Expected '{}' to be valid", id);
    }
}

#[test]
fn test_invalid_ids() {
    let invalid_ids = vec!["task-1", "BUG123", "FEATURE_", "123-ABC", "BUG-"];
    for id in invalid_ids {
        assert!(!is_valid_id(id), "Expected '{}' to be invalid", id);
    }
}

#[test]
fn some_attributes() {
    let line = "// TODO(TASK-123, bidir, labels=urgent,backend, assignee=alice): Fix bug";
    let attributes = parse_todo_attributes(line).unwrap();

    assert_eq!(
        attributes.get("bidir"),
        Some(&TodoAttributeValue::Flag(true))
    );
    assert_eq!(
        attributes.get("labels"),
        Some(&TodoAttributeValue::List(vec![
            "urgent".to_string(),
            "backend".to_string()
        ]))
    );
    assert_eq!(
        attributes.get("assignee"),
        Some(&TodoAttributeValue::Text("alice".to_string()))
    );
}

#[test]
fn tracked_line_without_comma_has_no_attributes() {
    let line = "TODO(TASK-123): text";
    let result = parse_todo_reference(line);
    match result {
        Some(TodoReference::TrackedId(id)) => assert_eq!(id, "TASK-123"),
        _ => panic!("Expected Tracked with ID TASK-123"),
    }
    assert!(parse_todo_attributes(line).is_none());
}

#[test]
fn tracked_line_with_full_attributes() {
    let line = "TODO(TASK-123, bidir, labels=urgent,backend, assignee=alice): text";
    let result = parse_todo_reference(line);
    match result {
        Some(TodoReference::TrackedId(id)) => assert_eq!(id, "TASK-123"),
        _ => panic!("Expected Tracked with ID TASK-123"),
    }
    let attrs = parse_todo_attributes(line).unwrap();
    assert_eq!(attrs.get("bidir"), Some(&TodoAttributeValue::Flag(true)));
    assert_eq!(
        attrs.get("labels"),
        Some(&TodoAttributeValue::List(vec![
            "urgent".to_string(),
            "backend".to_string()
        ]))
    );
    assert_eq!(
        attrs.get("assignee"),
        Some(&TodoAttributeValue::Text("alice".to_string()))
    );
    assert_eq!(attrs.get("missing"), None);
}

#[test]
fn empty_parens_have_no_attributes() {
    let line = "TODO(): text";
    assert!(matches!(
        parse_todo_reference(line),
        Some(TodoReference::Untracked)
    ));
    assert!(parse_todo_attributes(line).is_none());
}

#[test]
fn free_form_parenthetical_is_untracked() {
    let line = "TODO(alice): text";
    assert!(matches!(
        parse_todo_reference(line),
        Some(TodoReference::Untracked)
    ));
    assert!(parse_todo_attributes(line).is_none());
}

#[test]
fn missing_parens_yield_untracked_and_no_attributes() {
    let lines = [
        "// TODO: no parens at all",
        "// FIXME no colon either",
        "// TODO ) misplaced ( parens",
        "// TODO (never closed",
        "// TODO never opened)",
    ];
    for line in lines {
        assert!(
            matches!(parse_todo_reference(line), Some(TodoReference::Untracked)),
            "Expected Untracked for '{}'",
            line
        );
        assert!(
            parse_todo_attributes(line).is_none(),
            "Expected no attributes for '{}'",
            line
        );
    }
}

#[test]
fn line_without_marker_has_no_reference() {
    let line = "just ordinary text (with parens)";
    assert!(parse_todo_reference(line).is_none());
    assert!(parse_todo_attributes(line).is_none());
}

#[test]
fn fixme_marker_is_parsed_like_todo() {
    let line = "# FIXME(BUG-7): broken";
    match parse_todo_reference(line) {
        Some(TodoReference::TrackedId(id)) => assert_eq!(id, "BUG-7"),
        _ => panic!("Expected Tracked with ID BUG-7"),
    }
}

#[test]
fn invalid_id_with_comma_skips_attributes() {
    let line = "// TODO(alice, bidir): note";
    assert!(matches!(
        parse_todo_reference(line),
        Some(TodoReference::Untracked)
    ));
    assert!(parse_todo_attributes(line).is_none());
}

#[test]
fn reparsing_is_idempotent() {
    let line = "// TODO(TASK-123, bidir, labels=urgent,backend): Fix bug";
    let first = parse_todo_reference(line);
    let second = parse_todo_reference(line);
    assert_eq!(first, second);
    let attrs_a = parse_todo_attributes(line).unwrap();
    let attrs_b = parse_todo_attributes(line).unwrap();
    for key in ["bidir", "labels"] {
        assert_eq!(attrs_a.get(key), attrs_b.get(key));
    }
    assert_eq!(attrs_a.len(), attrs_b.len());
}

#[test]
fn duplicate_attribute_keys_overwrite() {
    let attrs = parse_attributes_from_string("a=1, a=2, b");
    assert_eq!(attrs.get("a"), Some(&TodoAttributeValue::Text("2".to_string())));
    assert_eq!(attrs.get("b"), Some(&TodoAttributeValue::Flag(true)));
    assert_eq!(attrs.len(), 2);
}

#[test]
fn list_values_drop_empty_elements() {
    let attrs = parse_attributes_from_string("labels=urgent,,backend,");
    assert_eq!(
        attrs.get("labels"),
        Some(&TodoAttributeValue::List(vec![
            "urgent".to_string(),
            "backend".to_string()
        ]))
    );
}

#[test]
fn attribute_values_are_trimmed() {
    let attrs = parse_attributes_from_string("assignee= alice , note=ok");
    assert_eq!(
        attrs.get("assignee"),
        Some(&TodoAttributeValue::Text("alice".to_string()))
    );
    assert_eq!(attrs.get("note"), Some(&TodoAttributeValue::Text("ok".to_string())));
}

#[test]
fn empty_attribute_source_yields_empty_map() {
    let attrs = parse_attributes_from_string("");
    assert_eq!(attrs.len(), 0);
    assert_eq!(attrs.get("anything"), None);
}

#[test]
fn identifier_needs_letters_dash_digits() {
    assert!(is_valid_id("A-1"));
    assert!(!is_valid_id(""));
    assert!(!is_valid_id("-1"));
    assert!(!is_valid_id("A-"));
    assert!(!is_valid_id("A-1-2"));
    assert!(!is_valid_id("A B-1"));
    assert!(!is_valid_id(" TASK-1"));
    assert!(!is_valid_id("TASK-1 "));
}
