//! Entity and value types produced by the parsers: tags, TODO keywords,
//! timestamp references, node properties, the headline entity and the
//! generic syntax node that carries buffer offsets.

use vstd::prelude::*;

verus! {

/// A single tag word: non-empty text over ASCII alphanumerics, `_`, `@`,
/// `#` and `%`. Duplicates are kept and order is preserved as written.
#[derive(Debug, Clone, PartialEq, Eq)]
pub struct Tag(pub Vec<u8>);

/// A TODO-state keyword drawn from the configured keyword set.
#[derive(Debug, Clone, PartialEq, Eq)]
pub struct TodoKeyword(pub Vec<u8>);

/// Classification of a TODO keyword: an open state or a done state.
#[derive(Debug, Clone, Copy, PartialEq, Eq, Structural)]
pub enum TodoType {
    TODO,
    DONE,
}

/// Reference to a timestamp: the span handed to the external timestamp
/// parser, as buffer offsets plus a copy of the raw bytes. The internal
/// structure of the timestamp is the business of that collaborator; this
/// crate only delimits and records the span.
#[derive(Debug, Clone, PartialEq, Eq)]
pub struct TimestampData {
    /// Offset of the opening `<` or `[` in the buffer.
    pub begin: usize,
    /// Offset one past the closing `>` or `]`.
    pub end: usize,
    /// The bytes of the span `[begin, end)`.
    pub raw: Vec<u8>,
}

/// A headline title. In raw mode it is the trimmed title text itself; in
/// parsed mode it is the trimmed buffer span that an external object-level
/// parser (out of scope here) would turn into a secondary string.
#[derive(Debug, Clone, PartialEq, Eq)]
pub enum SecondaryString {
    /// The raw title bytes, trimmed of surrounding whitespace.
    Raw(Vec<u8>),
    /// The trimmed title span `[begin, end)` awaiting object-level parsing.
    Span { begin: usize, end: usize },
}

/// One `:KEY: VALUE` entry of a property drawer. The key is stored with a
/// leading colon and upper-cased; the value is the raw trimmed text.
#[derive(Debug, Clone, PartialEq, Eq)]
pub struct NodePropertyData {
    pub key: Vec<u8>,
    pub value: Vec<u8>,
}

/// The ordered entries of one property drawer.
#[derive(Debug, Clone, PartialEq, Eq)]
pub struct PropertyDrawerData {
    pub properties: Vec<NodePropertyData>,
}

/// The attributes of a parsed headline.
#[derive(Debug, Clone, PartialEq, Eq)]
pub struct HeadlineData {
    /// Whether the configured archive tag stood in the raw tag list.
    pub archivedp: bool,
    /// CLOSED reference from the adjacent planning line, if any.
    pub closed: Option<TimestampData>,
    /// Whether the configured comment marker stood as a whole token after
    /// the stars, keyword and priority.
    pub commentedp: bool,
    /// DEADLINE reference from the adjacent planning line, if any.
    pub deadline: Option<TimestampData>,
    /// Whether the raw title equals the configured footnote-section literal.
    pub footnote_section_p: bool,
    /// Reduced level: the raw asterisk count after the configured folding.
    pub level: usize,
    /// Blank lines between the headline and the first non-blank content
    /// line; zero when the headline has no contents.
    pub pre_blank: usize,
    /// Priority cookie character, if a `[#X]` cookie was present.
    pub priority: Option<u8>,
    /// Ordered node properties from the property drawer, if one opened the
    /// section.
    pub properties: Vec<NodePropertyData>,
    /// Reserved legacy flag; this parser never sets it.
    pub quotedp: bool,
    /// Raw headline text between the stars and the tags, trimmed.
    pub raw_value: Vec<u8>,
    /// SCHEDULED reference from the adjacent planning line, if any.
    pub scheduled: Option<TimestampData>,
    /// Tags in written order, with the archive tag removed.
    pub tags: Vec<Tag>,
    /// The title, raw or as a span for the external object parser.
    pub title: SecondaryString,
    /// The matched TODO keyword, if any.
    pub todo_keyword: Option<TodoKeyword>,
}

/// Generic parse output: buffer offsets common to every element, plus the
/// element's own data.
#[derive(Debug, Clone, PartialEq, Eq)]
pub struct SyntaxNode<T> {
    /// Offset of the first byte of the element.
    pub begin: usize,
    /// Offset one past the element, trailing blank lines included.
    pub end: usize,
    /// Offset of the first byte of the contents, absent when none exist.
    pub contents_begin: Option<usize>,
    /// Offset one past the contents, absent when none exist.
    pub contents_end: Option<usize>,
    /// Blank lines between the element's first line and its contents.
    pub pre_blank: usize,
    /// Blank lines between the contents and the element's end.
    pub post_blank: usize,
    /// Offset where the element proper starts; equals `begin` here, since
    /// headlines carry no affiliated keywords.
    pub post_affiliated: usize,
    pub data: T,
}

/// Failure of a parse call. The offending offset is carried with the kind.
#[derive(Debug, Clone, Copy, PartialEq, Eq, Structural)]
pub enum ParseError {
    /// The cursor did not stand at a valid headline opening: a run of at
    /// least one asterisk ended by whitespace or the buffer end.
    MalformedHeadline { at: usize },
}

/// Rejection of a supplied configuration, raised once at initialization.
#[derive(Debug, Clone, Copy, PartialEq, Eq, Structural)]
pub enum ConfigError {
    /// A TODO keyword is empty.
    EmptyTodoKeyword { index: usize },
    /// A TODO keyword holds a whitespace byte.
    BlankInTodoKeyword { index: usize },
    /// A done keyword is not a member of the TODO keyword set.
    UnknownDoneKeyword { index: usize },
    /// The archive tag is empty or holds a byte outside the tag alphabet.
    InvalidArchiveTag,
    /// The comment marker is empty or holds a whitespace byte.
    InvalidCommentMarker,
    /// The inline-task minimum level is zero.
    InvalidInlinetaskLevel,
    /// The inline-task end marker is empty or holds a whitespace byte.
    InvalidInlinetaskEndMarker,
}

} // verus!
