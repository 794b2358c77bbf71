use org_headline::config::Config;
use org_headline::types::{ConfigError, TodoKeyword, TodoType};
use org_headline::Parser;

fn base_cfg() -> Config {
    Config::new(
        vec![b"TODO".to_vec(), b"DONE".to_vec()],
        vec![b"DONE".to_vec()],
        b"ARCHIVE".to_vec(),
        None,
        b"COMMENT".to_vec(),
        false,
        15,
        b"END".to_vec(),
    )
    .unwrap()
}

fn parser(text: &str) -> Parser {
    Parser::new(text.as_bytes().to_vec(), base_cfg())
}

#[test]
fn config_rejects_empty_todo_keyword() {
    let r = Config::new(
        vec![b"".to_vec()],
        vec![],
        b"ARCHIVE".to_vec(),
        None,
        b"COMMENT".to_vec(),
        false,
        15,
        b"END".to_vec(),
    );
    assert_eq!(r.unwrap_err(), ConfigError::EmptyTodoKeyword { index: 0 });
}

#[test]
fn config_rejects_blank_in_todo_keyword() {
    let r = Config::new(
        vec![b"TODO".to_vec(), b"IN PROGRESS".to_vec()],
        vec![],
        b"ARCHIVE".to_vec(),
        None,
        b"COMMENT".to_vec(),
        false,
        15,
        b"END".to_vec(),
    );
    assert_eq!(r.unwrap_err(), ConfigError::BlankInTodoKeyword { index: 1 });
}

#[test]
fn config_rejects_unknown_done_keyword() {
    let r = Config::new(
        vec![b"TODO".to_vec()],
        vec![b"DONE".to_vec()],
        b"ARCHIVE".to_vec(),
        None,
        b"COMMENT".to_vec(),
        false,
        15,
        b"END".to_vec(),
    );
    assert_eq!(r.unwrap_err(), ConfigError::UnknownDoneKeyword { index: 0 });
}

#[test]
fn config_rejects_bad_archive_tag() {
    let r = Config::new(
        vec![b"TODO".to_vec()],
        vec![],
        b"AR CHIVE".to_vec(),
        None,
        b"COMMENT".to_vec(),
        false,
        15,
        b"END".to_vec(),
    );
    assert_eq!(r.unwrap_err(), ConfigError::InvalidArchiveTag);
}

#[test]
fn config_rejects_bad_comment_marker() {
    let r = Config::new(
        vec![b"TODO".to_vec()],
        vec![],
        b"ARCHIVE".to_vec(),
        None,
        b"".to_vec(),
        false,
        15,
        b"END".to_vec(),
    );
    assert_eq!(r.unwrap_err(), ConfigError::InvalidCommentMarker);
}

#[test]
fn config_rejects_zero_inlinetask_level() {
    let r = Config::new(
        vec![b"TODO".to_vec()],
        vec![],
        b"ARCHIVE".to_vec(),
        None,
        b"COMMENT".to_vec(),
        false,
        0,
        b"END".to_vec(),
    );
    assert_eq!(r.unwrap_err(), ConfigError::InvalidInlinetaskLevel);
}

#[test]
fn config_rejects_bad_end_marker() {
    let r = Config::new(
        vec![b"TODO".to_vec()],
        vec![],
        b"ARCHIVE".to_vec(),
        None,
        b"COMMENT".to_vec(),
        false,
        15,
        b"E D".to_vec(),
    );
    assert_eq!(r.unwrap_err(), ConfigError::InvalidInlinetaskEndMarker);
}

#[test]
fn todo_type_uses_configured_done_subset() {
    let c = base_cfg();
    let done = TodoKeyword(b"DONE".to_vec());
    let open = TodoKeyword(b"TODO".to_vec());
    assert!(done.is_done(&c));
    assert!(!open.is_done(&c));
    assert_eq!(done.todo_type(&c), TodoType::DONE);
    assert_eq!(open.todo_type(&c), TodoType::TODO);
}

#[test]
fn planning_multiple_pairs_any_order() {
    let text = "* H\nSCHEDULED: <2024-01-03> CLOSED: [2024-01-02]\n";
    let p = parser(text);
    let node = p.headline_parser(text.len(), true).unwrap();
    assert_eq!(node.data.scheduled.unwrap().raw, b"<2024-01-03>".to_vec());
    assert_eq!(node.data.closed.unwrap().raw, b"[2024-01-02]".to_vec());
    assert!(node.data.deadline.is_none());
}

#[test]
fn planning_line_must_open_with_keyword() {
    let text = "* H\nfoo DEADLINE: <2024-01-01>\n";
    let p = parser(text);
    let node = p.headline_parser(text.len(), true).unwrap();
    assert!(node.data.deadline.is_none());
}

#[test]
fn planning_repeated_keyword_last_wins() {
    let text = "* H\nDEADLINE: <2024-01-01> DEADLINE: <2024-02-02>\n";
    let p = parser(text);
    let node = p.headline_parser(text.len(), true).unwrap();
    assert_eq!(node.data.deadline.unwrap().raw, b"<2024-02-02>".to_vec());
}

#[test]
fn planning_unclosed_timestamp_contributes_nothing() {
    let text = "* H\nDEADLINE: <2024-01-01\n";
    let p = parser(text);
    let node = p.headline_parser(text.len(), true).unwrap();
    assert!(node.data.deadline.is_none());
}

#[test]
fn drawer_after_planning_line() {
    let text = "* H\nDEADLINE: <2024-01-01>\n:PROPERTIES:\n:K: v\n:END:\n";
    let p = parser(text);
    let node = p.headline_parser(text.len(), true).unwrap();
    assert_eq!(node.data.properties.len(), 1);
    assert_eq!(node.data.properties[0].key, b":K".to_vec());
    assert_eq!(node.data.properties[0].value, b"v".to_vec());
}

#[test]
fn drawer_malformed_line_is_skipped() {
    let text = "* H\n:PROPERTIES:\nbadline\n:KEY: v\n:END:\n";
    let p = parser(text);
    let node = p.headline_parser(text.len(), true).unwrap();
    assert_eq!(node.data.properties.len(), 1);
    assert_eq!(node.data.properties[0].key, b":KEY".to_vec());
}

#[test]
fn drawer_without_end_line_is_no_drawer() {
    let text = "* H\n:PROPERTIES:\n:K: v\n";
    let p = parser(text);
    let node = p.headline_parser(text.len(), true).unwrap();
    assert!(node.data.properties.is_empty());
}

#[test]
fn drawer_case_insensitive_delimiters() {
    let text = "* H\n:properties:\n:K: v\n:end:\n";
    let p = parser(text);
    let node = p.headline_parser(text.len(), true).unwrap();
    assert_eq!(node.data.properties.len(), 1);
}

#[test]
fn property_drawer_parser_node_offsets() {
    let text = "* H\n:PROPERTIES:\n:K: v\n:END:\nrest\n";
    let mut p = parser(text);
    p.seek(4);
    let node = p.property_drawer_parser(text.len()).unwrap();
    assert_eq!(node.begin, 4);
    assert_eq!(node.contents_begin, Some(17));
    assert_eq!(node.contents_end, Some(23));
    assert_eq!(node.end, 29);
    assert_eq!(node.post_blank, 0);
    assert_eq!(node.data.properties.len(), 1);
}

#[test]
fn property_drawer_parser_absent_marker() {
    let text = "* H\nplain content\n";
    let mut p = parser(text);
    p.seek(4);
    assert!(p.property_drawer_parser(text.len()).is_none());
}

#[test]
fn node_property_parser_normalizes_key() {
    let text = ":Foo_bar: baz qux ";
    let p = parser(text);
    let node = p.node_property_parser(text.len()).unwrap();
    assert_eq!(node.data.key, b":FOO_BAR".to_vec());
    assert_eq!(node.data.value, b"baz qux".to_vec());
    assert_eq!(node.begin, 0);
}

#[test]
fn node_property_parser_rejects_missing_colon() {
    let text = ":Foo bar";
    let p = parser(text);
    assert!(p.node_property_parser(text.len()).is_none());
}

#[test]
fn node_property_empty_value() {
    let text = ":K:";
    let p = parser(text);
    let node = p.node_property_parser(text.len()).unwrap();
    assert_eq!(node.data.value, b"".to_vec());
}

#[test]
fn inlinetask_terminated_by_end_marker() {
    let text = "*************** TODO T\nbody\n*************** END\n";
    let p = parser(text);
    let node = p.inlinetask_parser(text.len(), true).unwrap();
    assert_eq!(node.data.level, 15);
    assert_eq!(node.data.todo_keyword.as_ref().unwrap().0, b"TODO".to_vec());
    assert_eq!(node.data.raw_value, b"T".to_vec());
    assert_eq!(node.contents_begin, Some(23));
    assert_eq!(node.contents_end, Some(28));
    assert_eq!(node.end, 48);
    assert!(node.data.closed.is_none());
    assert!(node.data.properties.is_empty());
}

#[test]
fn inlinetask_requires_minimum_stars() {
    let text = "** TODO T\n";
    let p = parser(text);
    assert!(p.inlinetask_parser(text.len(), true).is_err());
}

#[test]
fn inlinetask_without_end_marker_is_single_line() {
    let text = "*************** T\nno marker here\n";
    let p = parser(text);
    let node = p.inlinetask_parser(text.len(), true).unwrap();
    assert_eq!(node.end, 18);
    assert!(node.contents_begin.is_none());
}

#[test]
fn bare_star_with_space() {
    let text = "* ";
    let p = parser(text);
    let node = p.headline_parser(text.len(), true).unwrap();
    assert_eq!(node.data.level, 1);
    assert_eq!(node.data.raw_value, b"".to_vec());
    assert!(node.data.todo_keyword.is_none());
}

#[test]
fn tags_need_whitespace_of_their_own() {
    let text = "*   :tag:";
    let p = parser(text);
    let node = p.headline_parser(text.len(), true).unwrap();
    assert!(node.data.tags.is_empty());
    assert_eq!(node.data.raw_value, b":tag:".to_vec());
}

#[test]
fn carriage_return_trimmed_from_title() {
    let text = "** DONE Title \r\nnext\n";
    let p = parser(text);
    let node = p.headline_parser(text.len(), true).unwrap();
    assert_eq!(node.data.raw_value, b"Title".to_vec());
}
