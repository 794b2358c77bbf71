//! Parser for outline headlines in plain-text markup: lines opened by a run
//! of asterisks, carrying an optional TODO keyword, priority cookie, comment
//! marker, title and trailing tags, together with adjacent planning
//! information (CLOSED/DEADLINE/SCHEDULED) and a property drawer, and exact
//! buffer offsets (headline extent, content extent, blank-line counts) that
//! let the caller reconstruct the source text from the tree.
//!
//! The parser owns an immutable byte buffer and a cursor position. Parsing
//! methods take `&self`: they read the cursor but never move it, so the
//! cursor stands where the caller put it when a call returns, and a call's
//! result is a pure function of buffer, cursor and configuration.

pub mod config;
pub mod drawer;
pub mod headline;
pub mod planning;
pub mod scan;
pub mod types;

use vstd::prelude::*;

use crate::config::{config_wf, word_in, Config, ConfigV};
use crate::drawer::{drawer_node, drawer_node_matches, node_prop_node, props_pairs};
use crate::headline::{
    c_archived, c_cb, c_ce, c_end, c_level, c_next, c_rawtags, c_stars, c_tags_stored,
    contents_end_of, headline_matches, headline_node, inlinetask_matches, inlinetask_node,
    lemma_drop_word, lemma_subtree_bounds, opening_at, tag_views,
};
use crate::scan::{lemma_next_line_start, lemma_rscan_while, lemma_scan_while};
use crate::types::{
    HeadlineData, NodePropertyData, ParseError, PropertyDrawerData, SecondaryString, SyntaxNode,
    TimestampData,
};

verus! {

/// The scanner and orchestrator: an immutable buffer, a cursor position and
/// the validated configuration.
pub struct Parser {
    /// The document source.
    pub input: Vec<u8>,
    /// The cursor: a position into `input`. Parsing methods read it and
    /// leave it unchanged.
    pub pos: usize,
    /// The keyword sets and literals driving classification.
    pub config: Config,
}

impl Parser {
    /// A usable parser: validated configuration, cursor inside the buffer.
    pub open spec fn wf(&self) -> bool {
        config_wf(self.config@) && self.pos <= self.input@.len()
    }

    /// A parser over `input` with its cursor at the buffer start.
    pub fn new(input: Vec<u8>, config: Config) -> (r: Parser)
        requires
            config_wf(config@),
        ensures
            r.wf(),
            r.input@ == input@,
            r.pos == 0,
            r.config == config,
    {
        Parser { input, pos: 0, config }
    }

    /// The cursor position.
    pub fn position(&self) -> (r: usize)
        ensures
            r == self.pos,
    {
        self.pos
    }

    /// Move the cursor.
    pub fn seek(&mut self, pos: usize)
        requires
            pos <= old(self).input@.len(),
        ensures
            final(self).pos == pos,
            final(self).input == old(self).input,
            final(self).config == old(self).config,
    {
        self.pos = pos;
    }

    /// Parse the headline opening at the cursor, bounded by `limit`. Fails
    /// with `MalformedHeadline` exactly when the cursor does not stand at
    /// the first character of a line beginning with a run of at least one
    /// asterisk ended by whitespace or the buffer end. On success, every
    /// offset, flag, text and attachment of the node is pinned to the
    /// corresponding cut of the buffer. The cursor is left where the caller
    /// put it.
    pub fn headline_parser(&self, limit: usize, raw_secondary_p: bool) -> (r: Result<
        SyntaxNode<HeadlineData>,
        ParseError,
    >)
        requires
            self.wf(),
            self.pos <= limit,
            limit <= self.input@.len(),
        ensures
            r.is_ok() == opening_at(self.input@, self.pos as int, limit as int),
            r matches Err(e) ==> e == (ParseError::MalformedHeadline { at: self.pos }),
            r matches Ok(node) ==> headline_matches(
                self.config@,
                self.input@,
                self.pos as int,
                limit as int,
                raw_secondary_p,
                node,
            ),
            r matches Ok(node) ==> ((node.contents_begin is Some) == (node.contents_end is Some)),
            r matches Ok(node) ==> (node.contents_begin matches Some(cb) ==> self.pos < cb),
            r matches Ok(node) ==> (node.contents_end matches Some(ce) ==> ce <= node.end),
            r matches Ok(node) ==> node.end <= limit,
            r matches Ok(node) ==> (node.contents_begin matches Some(cb) ==> (
            node.contents_end matches Some(ce) && cb < ce)),
    {
        let r = headline_node(&self.config, &self.input, self.pos, limit, raw_secondary_p);
        proof {
            lemma_contents_bounds(self.config@, self.input@, self.pos as int, limit as int);
            lemma_subtree_bounds(
                self.config@,
                self.input@,
                c_next(self.input@, self.pos as int),
                c_level(self.config@, self.input@, self.pos as int, limit as int),
                limit as int,
            );
        }
        r
    }

    /// Parse the inline task opening at the cursor, bounded by `limit`: the
    /// same first-line fields as a headline (the cursor must likewise stand
    /// at a line start), but requiring at least the configured minimum star
    /// count and ending at the dedicated end-marker line rather than at the
    /// next shallower headline.
    pub fn inlinetask_parser(&self, limit: usize, raw_secondary_p: bool) -> (r: Result<
        SyntaxNode<HeadlineData>,
        ParseError,
    >)
        requires
            self.wf(),
            self.pos <= limit,
            limit <= self.input@.len(),
        ensures
            r.is_ok() == (opening_at(self.input@, self.pos as int, limit as int) && c_stars(
                self.input@,
                self.pos as int,
                limit as int,
            ) - self.pos >= self.config@.inlinetask_min_level),
            r matches Err(e) ==> e == (ParseError::MalformedHeadline { at: self.pos }),
            r matches Ok(node) ==> inlinetask_matches(
                self.config@,
                self.input@,
                self.pos as int,
                limit as int,
                raw_secondary_p,
                node,
            ),
    {
        inlinetask_node(&self.config, &self.input, self.pos, limit, raw_secondary_p)
    }

    /// Parse the property drawer whose `:PROPERTIES:` line is expected at
    /// the cursor, bounded by `limit`. Yields nothing when the opening line
    /// is absent or no `:END:` line follows before `limit`: the section
    /// simply has no drawer, which is a normal outcome.
    pub fn property_drawer_parser(&self, limit: usize) -> (r: Option<
        SyntaxNode<PropertyDrawerData>,
    >)
        requires
            self.wf(),
            self.pos <= limit,
            limit <= self.input@.len(),
        ensures
            (r is Some) == (crate::drawer::drawer_at(
                self.input@,
                self.pos as int,
                limit as int,
            ) is Some),
            r matches Some(node) ==> drawer_node_matches(
                self.input@,
                self.pos as int,
                limit as int,
                node,
            ),
    {
        drawer_node(&self.input, self.pos, limit)
    }

    /// Parse the single `:KEY: VALUE` node-property line at the cursor,
    /// bounded by `limit`. A malformed line yields nothing, so a drawer
    /// scan can skip it and go on.
    pub fn node_property_parser(&self, limit: usize) -> (r: Option<SyntaxNode<NodePropertyData>>)
        requires
            self.wf(),
            self.pos <= limit,
            limit <= self.input@.len(),
        ensures
            ({
                let s = self.input@;
                let pos = self.pos as int;
                let eol = if crate::scan::line_end(s, pos) < limit as int {
                    crate::scan::line_end(s, pos)
                } else {
                    limit as int
                };
                match crate::drawer::node_prop_at(s, pos, eol) {
                    Option::Some(kv) => r matches Some(node) && node.begin == self.pos
                        && node.data.key@ == kv.0 && node.data.value@ == kv.1,
                    Option::None => r is None,
                }
            }),
    {
        node_prop_node(&self.input, self.pos, limit)
    }
}

/// Observational equality of timestamp references.
pub open spec fn ts_equiv(a: Option<TimestampData>, b: Option<TimestampData>) -> bool {
    match (a, b) {
        (Option::Some(x), Option::Some(y)) => x.begin == y.begin && x.end == y.end && x.raw@
            == y.raw@,
        (Option::None, Option::None) => true,
        _ => false,
    }
}

/// Observational equality of titles.
pub open spec fn title_equiv(a: SecondaryString, b: SecondaryString) -> bool {
    match (a, b) {
        (SecondaryString::Raw(x), SecondaryString::Raw(y)) => x@ == y@,
        (
            SecondaryString::Span { begin: xb, end: xe },
            SecondaryString::Span { begin: yb, end: ye },
        ) => xb == yb && xe == ye,
        _ => false,
    }
}

/// Structural equality of two headline nodes, down to every observable
/// offset, flag, text, tag, timestamp and property.
pub open spec fn node_equiv(n1: SyntaxNode<HeadlineData>, n2: SyntaxNode<HeadlineData>) -> bool {
    &&& n1.begin == n2.begin
    &&& n1.end == n2.end
    &&& n1.contents_begin == n2.contents_begin
    &&& n1.contents_end == n2.contents_end
    &&& n1.pre_blank == n2.pre_blank
    &&& n1.post_blank == n2.post_blank
    &&& n1.post_affiliated == n2.post_affiliated
    &&& n1.data.archivedp == n2.data.archivedp
    &&& n1.data.commentedp == n2.data.commentedp
    &&& n1.data.footnote_section_p == n2.data.footnote_section_p
    &&& n1.data.quotedp == n2.data.quotedp
    &&& n1.data.level == n2.data.level
    &&& n1.data.pre_blank == n2.data.pre_blank
    &&& n1.data.priority == n2.data.priority
    &&& n1.data.raw_value@ == n2.data.raw_value@
    &&& tag_views(n1.data.tags@) == tag_views(n2.data.tags@)
    &&& title_equiv(n1.data.title, n2.data.title)
    &&& (match (n1.data.todo_keyword, n2.data.todo_keyword) {
        (Option::Some(x), Option::Some(y)) => x.0@ == y.0@,
        (Option::None, Option::None) => true,
        _ => false,
    })
    &&& ts_equiv(n1.data.closed, n2.data.closed)
    &&& ts_equiv(n1.data.deadline, n2.data.deadline)
    &&& ts_equiv(n1.data.scheduled, n2.data.scheduled)
    &&& props_pairs(n1.data.properties@) == props_pairs(n2.data.properties@)
}

/// Parsing is pure: two successful parses of the same buffer, offset and
/// configuration yield structurally identical nodes, since each node is
/// pinned field by field to the cuts of the buffer.
pub proof fn lemma_parse_deterministic(
    cfg: ConfigV,
    s: Seq<u8>,
    begin: int,
    limit: int,
    raw_secondary: bool,
    n1: SyntaxNode<HeadlineData>,
    n2: SyntaxNode<HeadlineData>,
)
    requires
        headline_matches(cfg, s, begin, limit, raw_secondary, n1),
        headline_matches(cfg, s, begin, limit, raw_secondary, n2),
    ensures
        node_equiv(n1, n2),
{
}

/// Offset ordering: whenever a headline has contents, the buffer offsets
/// stand in order `begin < contents_begin < contents_end <= end <= limit`;
/// when it has none, both content offsets are absent.
pub proof fn lemma_contents_bounds(cfg: ConfigV, s: Seq<u8>, begin: int, limit: int)
    requires
        config_wf(cfg),
        0 <= begin <= limit <= s.len(),
    ensures
        (c_cb(cfg, s, begin, limit) is Some) == (c_ce(cfg, s, begin, limit) is Some),
        c_cb(cfg, s, begin, limit) matches Option::Some(cb) ==> begin < cb < contents_end_of(
            s,
            cb,
            c_end(cfg, s, begin, limit),
        ) <= c_end(cfg, s, begin, limit) <= limit,
        c_ce(cfg, s, begin, limit) matches Option::Some(ce) ==> (c_cb(
            cfg,
            s,
            begin,
            limit,
        ) matches Option::Some(cb) && ce == contents_end_of(s, cb, c_end(cfg, s, begin, limit))),
{
    let nl = c_next(s, begin);
    let level = c_level(cfg, s, begin, limit);
    let e = c_end(cfg, s, begin, limit);
    lemma_next_line_start(s, begin);
    lemma_subtree_bounds(cfg, s, nl, level, limit);
    match c_cb(cfg, s, begin, limit) {
        Option::Some(cb) => {
            let q = crate::scan::scan_while(s, nl, e, crate::scan::blank_pred());
            lemma_scan_while(s, nl, e, crate::scan::blank_pred());
            assert(!crate::scan::is_blank(s[q]));
            lemma_rscan_while(s, 0, q, crate::scan::non_byte_pred(10));
            assert(nl < s.len());
            assert(s[nl - 1] == 10);
            if cb < nl {
                assert(nl - 1 >= cb && nl - 1 < q);
                assert(s[nl - 1] != 10);
            }
            assert(begin < nl <= cb);
            let r = crate::scan::rscan_while(s, cb, e, crate::scan::blank_pred());
            lemma_rscan_while(s, cb, e, crate::scan::blank_pred());
            if r <= q {
                assert(crate::scan::is_blank(s[q]));
            }
            lemma_next_line_start(s, r);
            assert(cb < contents_end_of(s, cb, e));
            assert(contents_end_of(s, cb, e) <= e);
        },
        Option::None => {},
    }
}

/// The archive tag drives the archived flag and is withheld from the
/// stored tag list: `archived` holds exactly when the configured archive
/// tag stood among the raw tag words, the stored tags never contain it,
/// and every other word's membership is unchanged.
pub proof fn lemma_archive_tag(cfg: ConfigV, s: Seq<u8>, begin: int, limit: int)
    ensures
        c_archived(cfg, s, begin, limit) == word_in(
            c_rawtags(cfg, s, begin, limit),
            cfg.archive_tag,
        ),
        !word_in(c_tags_stored(cfg, s, begin, limit), cfg.archive_tag),
        forall|x: Seq<u8>|
            x != cfg.archive_tag ==> word_in(c_tags_stored(cfg, s, begin, limit), x) == word_in(
                c_rawtags(cfg, s, begin, limit),
                x,
            ),
{
    lemma_drop_word(c_rawtags(cfg, s, begin, limit), cfg.archive_tag);
}

} // verus!
