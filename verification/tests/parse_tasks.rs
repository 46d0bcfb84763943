use uurlog_paymo::parse_tasks::{parse_line, parse_task_ids, partition, LineContent, ParseError};

fn pairs(data: &str) -> Vec<(String, u64)> {
    parse_task_ids(data).ok().unwrap().tasks.into_iter().map(|t| (t.name, t.id)).collect()
}

fn chars(text: &str) -> Vec<char> {
    text.chars().collect()
}

#[test]
fn tasks_are_read_line_by_line() {
    assert_eq!(
        pairs("proj/a = 7\nproj/b = 8\n"),
        vec![("proj/a".to_string(), 7), ("proj/b".to_string(), 8)]
    );
}

#[test]
fn tasks_keep_the_order_of_the_lines() {
    assert_eq!(
        pairs("z=1\na=2\nm=3"),
        vec![("z".to_string(), 1), ("a".to_string(), 2), ("m".to_string(), 3)]
    );
}

#[test]
fn blank_lines_and_comments_are_passed_over() {
    let data = "# tasks\n\n   \nproj/a = 7\n  # proj/b = 8\n\t\nproj/c=9\n#\n";
    assert_eq!(pairs(data), vec![("proj/a".to_string(), 7), ("proj/c".to_string(), 9)]);
    assert!(pairs("").is_empty());
    assert!(pairs("\n\n").is_empty());
    assert!(pairs("# only a comment").is_empty());
}

#[test]
fn white_space_around_tag_and_id_does_not_count() {
    assert_eq!(pairs("  proj/a\t=   7  "), vec![("proj/a".to_string(), 7)]);
    assert_eq!(pairs("\u{a0}tag\u{2003}=\u{3000}12\u{2028}"), vec![("tag".to_string(), 12)]);
    assert_eq!(pairs("my tag = 5"), vec![("my tag".to_string(), 5)]);
}

#[test]
fn lines_may_end_with_carriage_return_and_line_feed() {
    assert_eq!(
        pairs("proj/a = 7\r\nproj/b = 8\r\n\r\n"),
        vec![("proj/a".to_string(), 7), ("proj/b".to_string(), 8)]
    );
}

#[test]
fn the_first_equals_sign_splits_the_line() {
    match parse_task_ids("a = b = 3") {
        Err(ParseError::InvalidTaskId { line, text }) => {
            assert_eq!(line, 0);
            assert_eq!(text, "b = 3");
        }
        other => panic!("expected an invalid task ID, got {:?}", other),
    }
    assert_eq!(pairs("= 4"), vec![("".to_string(), 4)]);
}

#[test]
fn identifiers_are_unsigned_numbers() {
    assert_eq!(pairs("a = +5"), vec![("a".to_string(), 5)]);
    assert_eq!(pairs("a = 0005"), vec![("a".to_string(), 5)]);
    assert_eq!(pairs("a = 18446744073709551615"), vec![("a".to_string(), u64::MAX)]);
    for (data, found) in [
        ("a = -5", "-5"),
        ("a = 18446744073709551616", "18446744073709551616"),
        ("a = 5x", "5x"),
        ("a = 1 2", "1 2"),
        ("a =", ""),
        ("a = +", "+"),
        ("a = 0x10", "0x10"),
    ] {
        match parse_task_ids(data) {
            Err(ParseError::InvalidTaskId { line, text }) => {
                assert_eq!(line, 0);
                assert_eq!(text, found);
            }
            other => panic!("expected an invalid task ID for {:?}, got {:?}", data, other),
        }
    }
}

#[test]
fn a_line_without_equals_sign_is_invalid() {
    match parse_task_ids("# list\nproj/a = 7\n\nproj/b 8\nproj/c = 9") {
        Err(ParseError::InvalidSyntax { line }) => assert_eq!(line, 3),
        other => panic!("expected invalid syntax, got {:?}", other),
    }
    assert!(matches!(parse_task_ids("x"), Err(ParseError::InvalidSyntax { line: 0 })));
}

#[test]
fn a_tag_may_stand_for_one_task_only() {
    match parse_task_ids("proj/a = 7\nproj/b = 8\n proj/a=9\nproj/b = 8") {
        Err(ParseError::DuplicateTag { line, tag }) => {
            assert_eq!(line, 2);
            assert_eq!(tag, "proj/a");
        }
        other => panic!("expected a duplicate tag, got {:?}", other),
    }
    assert_eq!(pairs("a = 1\nA = 1"), vec![("a".to_string(), 1), ("A".to_string(), 1)]);
}

#[test]
fn the_first_line_at_fault_decides() {
    assert!(matches!(
        parse_task_ids("a = 1\nb = x\nc\na = 2"),
        Err(ParseError::InvalidTaskId { line: 1, .. })
    ));
    assert!(matches!(
        parse_task_ids("a = 1\nc\nb = x\na = 2"),
        Err(ParseError::InvalidSyntax { line: 1 })
    ));
    assert!(matches!(
        parse_task_ids("a = 1\na = 2\nc\nb = x"),
        Err(ParseError::DuplicateTag { line: 1, .. })
    ));
}

#[test]
fn the_table_finds_what_was_read() {
    let table = parse_task_ids("proj/a = 7\nproj/b = 8").ok().unwrap();
    assert_eq!(table.get(&"proj/a".to_string()), Some(7));
    assert_eq!(table.get(&"proj/b".to_string()), Some(8));
    assert_eq!(table.get(&"proj/c".to_string()), None);
}

#[test]
fn partition_splits_at_the_first_mark() {
    let text = chars("tag=1=2");
    assert_eq!(partition(&text, 0, text.len(), '='), Some(3));
    assert_eq!(partition(&text, 4, text.len(), '='), Some(5));
    assert_eq!(partition(&text, 0, 3, '='), None);
    assert_eq!(partition(&text, 6, text.len(), '='), None);
    assert_eq!(partition(&text, 2, 2, '='), None);
    assert_eq!(partition(&chars("=x"), 0, 2, '='), Some(0));
}

#[test]
fn one_line_is_read_by_itself() {
    let text = chars("xx  tag = 12 yy");
    assert!(matches!(parse_line(&text, 2, 12), LineContent::Task { ref tag, id: 12 } if tag == "tag"));
    assert!(matches!(parse_line(&text, 2, 7), LineContent::InvalidSyntax));
    assert!(matches!(parse_line(&text, 2, 4), LineContent::Blank));
    assert!(matches!(parse_line(&text, 2, 15), LineContent::InvalidTaskId { ref text } if text == "12 yy"));
    assert!(matches!(parse_line(&chars(" #a=1"), 0, 5), LineContent::Blank));
}
