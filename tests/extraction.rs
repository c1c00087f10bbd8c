use test_readme::{commands_from_events, lines_of, parse_commands, Error, MdEvent};

#[test]
fn extraction_keeps_document_order() {
    let md = "# Install\n\nFirst:\n\n```sh\napt-get update\napt-get install curl\n```\n\nSome prose in between.\n\n## Then\n\n```\nmake\nmake install\n```\n";
    let cmds = parse_commands(md).unwrap();
    assert_eq!(
        cmds,
        vec!["apt-get update", "apt-get install curl", "make", "make install"]
    );
}

#[test]
fn prose_and_inline_code_are_ignored() {
    let md = "# Title\n\nRun `apt-get install foo` to install.\n\n* a list item\n* [a link](http://example.com)\n";
    let cmds = parse_commands(md).unwrap();
    assert!(cmds.is_empty());
}

#[test]
fn empty_document_has_no_commands() {
    assert!(parse_commands("").unwrap().is_empty());
}

#[test]
fn indented_code_block_counts() {
    let md = "Text.\n\n    echo one\n    echo two\n\nMore text.\n";
    assert_eq!(parse_commands(md).unwrap(), vec!["echo one", "echo two"]);
}

#[test]
fn blank_line_in_block_is_kept() {
    let md = "```\necho a\n\necho b\n```\n";
    assert_eq!(parse_commands(md).unwrap(), vec!["echo a", "", "echo b"]);
}

#[test]
fn nested_code_block_is_rejected() {
    let events = vec![
        MdEvent::CodeBlockStart,
        MdEvent::Text("echo a\n".to_string()),
        MdEvent::CodeBlockStart,
        MdEvent::Text("echo b\n".to_string()),
        MdEvent::CodeBlockEnd,
    ];
    let r = commands_from_events(&events);
    assert!(matches!(r, Err(Error::ParseMd(_))));
}

#[test]
fn events_outside_blocks_are_ignored() {
    let events = vec![
        MdEvent::Text("prose\n".to_string()),
        MdEvent::CodeBlockStart,
        MdEvent::Text("echo a\nech".to_string()),
        MdEvent::Text("o b\n".to_string()),
        MdEvent::CodeBlockEnd,
        MdEvent::Other,
        MdEvent::Text("more prose\n".to_string()),
        MdEvent::CodeBlockStart,
        MdEvent::Text("echo c\n".to_string()),
        MdEvent::CodeBlockEnd,
    ];
    let cmds = commands_from_events(&events).unwrap();
    assert_eq!(cmds, vec!["echo a", "echo b", "echo c"]);
}

#[test]
fn lines_split_like_std() {
    assert!(lines_of("").is_empty());
    assert_eq!(lines_of("a"), vec!["a"]);
    assert_eq!(lines_of("a\n"), vec!["a"]);
    assert_eq!(lines_of("\n"), vec![""]);
    assert_eq!(lines_of("a\r\nb\n\nc"), vec!["a", "b", "", "c"]);
}
