use org_headline::config::Config;
use org_headline::types::{ParseError, SecondaryString};
use org_headline::Parser;

fn cfg(odd: bool) -> Config {
    Config::new(
        vec![b"TODO".to_vec(), b"DONE".to_vec()],
        vec![b"DONE".to_vec()],
        b"ARCHIVE".to_vec(),
        Some(b"Footnotes".to_vec()),
        b"COMMENT".to_vec(),
        odd,
        15,
        b"END".to_vec(),
    )
    .unwrap()
}

fn parser(text: &str, odd: bool) -> Parser {
    Parser::new(text.as_bytes().to_vec(), cfg(odd))
}

#[test]
fn full_headline_fields() {
    let text = "* TODO [#A] COMMENT Title :tag:a2%:";
    let p = parser(text, false);
    let node = p.headline_parser(text.len(), true).unwrap();
    assert_eq!(node.data.level, 1);
    assert_eq!(node.data.todo_keyword.as_ref().unwrap().0, b"TODO".to_vec());
    assert_eq!(node.data.priority, Some(b'A'));
    assert!(node.data.commentedp);
    assert_eq!(node.data.raw_value, b"Title".to_vec());
    assert_eq!(node.data.tags.len(), 2);
    assert_eq!(node.data.tags[0].0, b"tag".to_vec());
    assert_eq!(node.data.tags[1].0, b"a2%".to_vec());
    assert!(!node.data.archivedp);
    assert!(!node.data.footnote_section_p);
}

#[test]
fn done_bare_keyword() {
    let text = "** DONE";
    let p = parser(text, false);
    let node = p.headline_parser(text.len(), true).unwrap();
    assert_eq!(node.data.level, 2);
    let kw = node.data.todo_keyword.as_ref().unwrap();
    assert_eq!(kw.0, b"DONE".to_vec());
    assert!(kw.is_done(&p.config));
    assert_eq!(node.data.raw_value, b"".to_vec());
    assert!(node.data.tags.is_empty());
}

#[test]
fn deadline_on_adjacent_line() {
    let text = "* H\nDEADLINE: <2024-01-01>\n";
    let p = parser(text, false);
    let node = p.headline_parser(text.len(), true).unwrap();
    let d = node.data.deadline.as_ref().unwrap();
    assert_eq!(d.raw, b"<2024-01-01>".to_vec());
    assert_eq!(d.begin, 14);
    assert_eq!(d.end, 26);
    assert!(node.data.scheduled.is_none());
    assert!(node.data.closed.is_none());
}

#[test]
fn blank_line_breaks_planning_adjacency() {
    let text = "* H\n\nDEADLINE: <2024-01-01>\n";
    let p = parser(text, false);
    let node = p.headline_parser(text.len(), true).unwrap();
    assert!(node.data.deadline.is_none());
    assert!(node.data.scheduled.is_none());
    assert!(node.data.closed.is_none());
}

#[test]
fn drawer_property_attached() {
    let text = "* H\n:PROPERTIES:\n:CUSTOM_ID: foo\n:END:\n";
    let p = parser(text, false);
    let node = p.headline_parser(text.len(), true).unwrap();
    assert_eq!(node.data.properties.len(), 1);
    assert_eq!(node.data.properties[0].key, b":CUSTOM_ID".to_vec());
    assert_eq!(node.data.properties[0].value, b"foo".to_vec());
}

#[test]
fn headline_at_buffer_end_without_newline() {
    let text = "* X";
    let p = parser(text, false);
    let node = p.headline_parser(text.len(), true).unwrap();
    assert_eq!(node.end, 3);
    assert_eq!(node.post_blank, 0);
    assert!(node.contents_begin.is_none());
    assert!(node.contents_end.is_none());
    assert_eq!(node.pre_blank, 0);
}

#[test]
fn odd_levels_fold_five_stars_to_three() {
    let text = "***** T";
    let p = parser(text, true);
    let node = p.headline_parser(text.len(), true).unwrap();
    assert_eq!(node.data.level, 3);
    let p2 = parser(text, false);
    let node2 = p2.headline_parser(text.len(), true).unwrap();
    assert_eq!(node2.data.level, 5);
}

#[test]
fn archive_tag_sets_flag_and_is_removed() {
    let text = "* H :a:ARCHIVE:b:";
    let p = parser(text, false);
    let node = p.headline_parser(text.len(), true).unwrap();
    assert!(node.data.archivedp);
    assert_eq!(node.data.tags.len(), 2);
    assert_eq!(node.data.tags[0].0, b"a".to_vec());
    assert_eq!(node.data.tags[1].0, b"b".to_vec());
}

#[test]
fn parsing_twice_is_identical() {
    let text = "* TODO [#B] Title :x:\nSCHEDULED: <2024-02-02>\n:PROPERTIES:\n:K: v\n:END:\n\nbody\n";
    let p = parser(text, false);
    let n1 = p.headline_parser(text.len(), true).unwrap();
    let n2 = p.headline_parser(text.len(), true).unwrap();
    assert_eq!(n1, n2);
}

#[test]
fn content_offsets_ordered_and_exact() {
    let text = "* H\n\n text\n\n** S\n";
    let p = parser(text, false);
    let node = p.headline_parser(text.len(), true).unwrap();
    assert_eq!(node.begin, 0);
    assert_eq!(node.end, 17);
    assert_eq!(node.contents_begin, Some(5));
    assert_eq!(node.contents_end, Some(17));
    assert_eq!(node.pre_blank, 1);
    assert_eq!(node.post_blank, 0);
    assert_eq!(node.post_affiliated, 0);
    let cb = node.contents_begin.unwrap();
    let ce = node.contents_end.unwrap();
    assert!(node.begin <= cb && cb <= ce && ce <= node.end);
}

#[test]
fn empty_tag_group_yields_no_tags() {
    let text = "* T ::";
    let p = parser(text, false);
    let node = p.headline_parser(text.len(), true).unwrap();
    assert!(node.data.tags.is_empty());
    assert_eq!(node.data.raw_value, b"T".to_vec());
}

#[test]
fn comment_marker_must_be_whole_token() {
    let text = "* COMMENTARY x";
    let p = parser(text, false);
    let node = p.headline_parser(text.len(), true).unwrap();
    assert!(!node.data.commentedp);
    assert_eq!(node.data.raw_value, b"COMMENTARY x".to_vec());
}

#[test]
fn keyword_needs_boundary() {
    let text = "* TODOx";
    let p = parser(text, false);
    let node = p.headline_parser(text.len(), true).unwrap();
    assert!(node.data.todo_keyword.is_none());
    assert_eq!(node.data.raw_value, b"TODOx".to_vec());
}

#[test]
fn footnote_section_flag() {
    let text = "* Footnotes";
    let p = parser(text, false);
    let node = p.headline_parser(text.len(), true).unwrap();
    assert!(node.data.footnote_section_p);
}

#[test]
fn malformed_opening_is_an_error() {
    let text = "x* T";
    let p = parser(text, false);
    let r = p.headline_parser(text.len(), true);
    assert_eq!(r.unwrap_err(), ParseError::MalformedHeadline { at: 0 });
}

#[test]
fn stars_need_following_whitespace() {
    let text = "*x";
    let p = parser(text, false);
    assert!(p.headline_parser(text.len(), true).is_err());
}

#[test]
fn title_span_in_parsed_mode() {
    let text = "* TODO  Title  :t:";
    let p = parser(text, false);
    let node = p.headline_parser(text.len(), false).unwrap();
    match node.data.title {
        SecondaryString::Span { begin, end } => {
            assert_eq!(&text.as_bytes()[begin..end], b"Title");
        },
        SecondaryString::Raw(_) => panic!("expected a span in parsed mode"),
    }
    assert_eq!(node.data.raw_value, b"Title".to_vec());
}

#[test]
fn cursor_is_caller_controlled() {
    let text = "junk\n* H :t:\n";
    let mut p = parser(text, false);
    assert_eq!(p.position(), 0);
    p.seek(5);
    assert_eq!(p.position(), 5);
    let node = p.headline_parser(text.len(), true).unwrap();
    assert_eq!(node.begin, 5);
    assert_eq!(node.data.tags[0].0, b"t".to_vec());
    assert_eq!(p.position(), 5);
}

#[test]
fn subtree_ends_before_sibling_not_child() {
    let text = "* A\n** child\n* B\n";
    let p = parser(text, false);
    let node = p.headline_parser(text.len(), true).unwrap();
    assert_eq!(node.end, 13);
    assert_eq!(node.contents_begin, Some(4));
    assert_eq!(node.contents_end, Some(13));
}

#[test]
fn first_line_reconstructs_from_fields() {
    let text = "* TODO [#A] COMMENT Title :tag:a2%:";
    let p = parser(text, false);
    let node = p.headline_parser(text.len(), true).unwrap();
    let mut line: Vec<u8> = Vec::new();
    for _ in 0..node.data.level {
        line.push(b'*');
    }
    line.push(b' ');
    line.extend_from_slice(&node.data.todo_keyword.as_ref().unwrap().0);
    line.push(b' ');
    line.extend_from_slice(b"[#");
    line.push(node.data.priority.unwrap());
    line.extend_from_slice(b"] ");
    line.extend_from_slice(b"COMMENT ");
    line.extend_from_slice(&node.data.raw_value);
    line.push(b' ');
    line.push(b':');
    for t in &node.data.tags {
        line.extend_from_slice(&t.0);
        line.push(b':');
    }
    assert_eq!(line, text.as_bytes().to_vec());
}

#[test]
fn opening_must_stand_at_line_start() {
    let text = " * y";
    let mut p = parser(text, false);
    p.seek(1);
    let r = p.headline_parser(text.len(), true);
    assert_eq!(r.unwrap_err(), ParseError::MalformedHeadline { at: 1 });
    let text2 = "a\n* y";
    let mut p2 = parser(text2, false);
    p2.seek(2);
    assert!(p2.headline_parser(text2.len(), true).is_ok());
}

#[test]
fn inlinetask_opening_must_stand_at_line_start() {
    let text = " *************** T";
    let mut p = parser(text, false);
    p.seek(1);
    assert!(p.inlinetask_parser(text.len(), true).is_err());
}
