//! Headline parser: the field extraction of the headline line (stars, TODO
//! keyword, priority cookie, comment marker, title, trailing tags), the
//! classification flags, the subtree end bounded by the next headline of
//! equal or shallower reduced level, the content bounds and blank-line
//! counts, and the attachment of the adjacent planning line and property
//! drawer. Every step is specified by a cut function over the byte buffer;
//! the executable parser is proved to return exactly those cuts.

use vstd::prelude::*;

use crate::config::{config_wf, word_in, ConfigV};
use crate::scan::{
    blank_pred, bol, count_lines, count_nl, is_blank, is_sp, line_end, next_line_start,
    non_byte_pred, rscan_while, scan_while, sp_pred, star_pred, tag_run_pred, trim_pred,
};
use crate::scan::lemma_count_nl;
use crate::scan::lemma_next_line_start;
use crate::scan::lemma_rscan_while;
use crate::scan::lemma_scan_while;
use crate::types::Tag;

verus! {

/// The reduced level of a raw star count: the count itself, or its ceiling
/// half under odd-levels-only folding.
pub open spec fn reduced_level(cfg: ConfigV, n: int) -> int {
    if cfg.odd_levels_only {
        (n + 1) / 2
    } else {
        n
    }
}

/// End of the marker-star run opening at `begin`, bounded by `limit`.
pub open spec fn c_stars(s: Seq<u8>, begin: int, limit: int) -> int {
    scan_while(s, begin, limit, star_pred())
}

/// A valid headline opening: the position is the first character of a line
/// (the buffer start or just after a newline), and a run of at least one
/// star stands there, ended by whitespace or the buffer end.
pub open spec fn opening_at(s: Seq<u8>, begin: int, limit: int) -> bool {
    let se = c_stars(s, begin, limit);
    (begin == 0 || s[begin - 1] == 10) && se > begin && (se == s.len() || is_blank(s[se]))
}

/// The reduced level of the headline opening at `begin`.
pub open spec fn c_level(cfg: ConfigV, s: Seq<u8>, begin: int, limit: int) -> int {
    reduced_level(cfg, c_stars(s, begin, limit) - begin)
}

/// `w` standing at `i` as a whole token: its bytes verbatim, ended by
/// whitespace, a newline or the buffer end.
pub open spec fn token_at(s: Seq<u8>, i: int, w: Seq<u8>) -> bool {
    w.len() > 0 && 0 <= i && i + w.len() <= s.len() && s.subrange(i, i + w.len()) == w && (i
        + w.len() == s.len() || is_blank(s[i + w.len()]))
}

/// Index of the first keyword of `kws` (from position `k` on) standing as a
/// whole token at `i`.
pub open spec fn first_kw(kws: Seq<Seq<u8>>, k: int, s: Seq<u8>, i: int) -> Option<int>
    decreases kws.len() - k,
{
    if 0 <= k < kws.len() {
        if token_at(s, i, kws[k]) {
            Option::Some(k)
        } else {
            first_kw(kws, k + 1, s, i)
        }
    } else {
        Option::None
    }
}

/// Position after the stars' trailing whitespace, where the TODO keyword is
/// attempted.
pub open spec fn c_kwstart(s: Seq<u8>, begin: int, limit: int) -> int {
    scan_while(s, c_stars(s, begin, limit), limit, sp_pred())
}

/// The matched TODO keyword, as an index into the configured ordered set.
pub open spec fn c_kw(cfg: ConfigV, s: Seq<u8>, begin: int, limit: int) -> Option<int> {
    first_kw(cfg.todo_keywords, 0, s, c_kwstart(s, begin, limit))
}

/// Position after the keyword and its trailing whitespace.
pub open spec fn c_afterkw(cfg: ConfigV, s: Seq<u8>, begin: int, limit: int) -> int {
    match c_kw(cfg, s, begin, limit) {
        Option::Some(k) => scan_while(
            s,
            c_kwstart(s, begin, limit) + cfg.todo_keywords[k].len(),
            limit,
            sp_pred(),
        ),
        Option::None => c_kwstart(s, begin, limit),
    }
}

/// A priority cookie `[#X]` at `i`, where `X` is any byte but a newline.
pub open spec fn prio_at(s: Seq<u8>, i: int) -> bool {
    0 <= i && i + 4 <= s.len() && s[i] == 91 && s[i + 1] == 35 && s[i + 2] != 10 && s[i + 3] == 93
}

/// The priority character, when a cookie stands after the keyword.
pub open spec fn c_priority(cfg: ConfigV, s: Seq<u8>, begin: int, limit: int) -> Option<u8> {
    if prio_at(s, c_afterkw(cfg, s, begin, limit)) {
        Option::Some(s[c_afterkw(cfg, s, begin, limit) + 2])
    } else {
        Option::None
    }
}

/// Position after the priority cookie and its trailing whitespace.
pub open spec fn c_afterprio(cfg: ConfigV, s: Seq<u8>, begin: int, limit: int) -> int {
    if prio_at(s, c_afterkw(cfg, s, begin, limit)) {
        scan_while(s, c_afterkw(cfg, s, begin, limit) + 4, limit, sp_pred())
    } else {
        c_afterkw(cfg, s, begin, limit)
    }
}

/// Whether the configured comment marker stands as a whole token next.
pub open spec fn c_commented(cfg: ConfigV, s: Seq<u8>, begin: int, limit: int) -> bool {
    token_at(s, c_afterprio(cfg, s, begin, limit), cfg.comment_marker)
}

/// Start of the title span, after any comment marker and its whitespace.
pub open spec fn c_titlestart(cfg: ConfigV, s: Seq<u8>, begin: int, limit: int) -> int {
    if c_commented(cfg, s, begin, limit) {
        scan_while(
            s,
            c_afterprio(cfg, s, begin, limit) + cfg.comment_marker.len(),
            limit,
            sp_pred(),
        )
    } else {
        c_afterprio(cfg, s, begin, limit)
    }
}

/// End of the headline's own line.
pub open spec fn c_eol(s: Seq<u8>, begin: int) -> int {
    line_end(s, begin)
}

/// Start of the colon-delimited tag group at a tag-run match: after the
/// whitespace run opening at `t`.
pub open spec fn group_lo(s: Seq<u8>, t: int, eol: int) -> int {
    scan_while(s, t, eol, sp_pred())
}

/// End of the colon-delimited tag group: the end of the run of tag bytes
/// and colons following `group_lo`.
pub open spec fn group_hi(s: Seq<u8>, t: int, eol: int) -> int {
    scan_while(s, group_lo(s, t, eol), eol, tag_run_pred())
}

/// A trailing tag run matching at `t`: whitespace, then a group of tag
/// bytes and colons opening and closing with a colon, then only whitespace
/// up to the line end.
pub open spec fn tags_match_at(s: Seq<u8>, t: int, eol: int) -> bool {
    0 <= t && t < eol && eol <= s.len() && is_sp(s[t]) && {
        let w = group_lo(s, t, eol);
        let ge = group_hi(s, t, eol);
        ge - w >= 2 && s[w] == 58 && s[ge - 1] == 58 && scan_while(s, ge, eol, sp_pred()) == eol
    }
}

/// Leftmost position in `[t, eol)` where the trailing tag run matches.
pub open spec fn tags_start(s: Seq<u8>, t: int, eol: int) -> Option<int>
    decreases eol - t,
{
    if t >= eol {
        Option::None
    } else if tags_match_at(s, t, eol) {
        Option::Some(t)
    } else {
        tags_start(s, t + 1, eol)
    }
}

/// Where the tag search lands for this headline.
pub open spec fn c_tagsat(cfg: ConfigV, s: Seq<u8>, begin: int, limit: int) -> Option<int> {
    tags_start(s, c_titlestart(cfg, s, begin, limit), c_eol(s, begin))
}

/// End of the title span: the tag run's start, or the line end.
pub open spec fn c_titleend(cfg: ConfigV, s: Seq<u8>, begin: int, limit: int) -> int {
    match c_tagsat(cfg, s, begin, limit) {
        Option::Some(t) => t,
        Option::None => c_eol(s, begin),
    }
}

/// Split `[cur, ge)` at colons, discarding empty segments.
pub open spec fn split_at(s: Seq<u8>, cur: int, ge: int) -> Seq<Seq<u8>>
    decreases ge - cur,
    via split_at_dec
{
    if cur < ge && 0 <= cur && ge <= s.len() {
        let j = scan_while(s, cur, ge, non_byte_pred(58));
        let seg = s.subrange(cur, j);
        let rest = if j < ge {
            split_at(s, j + 1, ge)
        } else {
            Seq::empty()
        };
        if seg.len() > 0 {
            seq![seg] + rest
        } else {
            rest
        }
    } else {
        Seq::empty()
    }
}

#[via_fn]
proof fn split_at_dec(s: Seq<u8>, cur: int, ge: int) {
    if cur < ge && 0 <= cur && ge <= s.len() {
        lemma_scan_while(s, cur, ge, non_byte_pred(58));
    }
}

/// The raw tag words of this headline, in written order, duplicates kept.
pub open spec fn c_rawtags(cfg: ConfigV, s: Seq<u8>, begin: int, limit: int) -> Seq<Seq<u8>> {
    match c_tagsat(cfg, s, begin, limit) {
        Option::Some(t) => split_at(
            s,
            group_lo(s, t, c_eol(s, begin)),
            group_hi(s, t, c_eol(s, begin)),
        ),
        Option::None => Seq::empty(),
    }
}

/// `list` with every occurrence of the word `w` removed.
pub open spec fn drop_word(list: Seq<Seq<u8>>, w: Seq<u8>) -> Seq<Seq<u8>>
    decreases list.len(),
{
    if list.len() == 0 {
        Seq::empty()
    } else {
        let rest = drop_word(list.drop_first(), w);
        if list.first() == w {
            rest
        } else {
            seq![list.first()] + rest
        }
    }
}

/// The stored tag words: the raw ones with the archive tag removed.
pub open spec fn c_tags_stored(cfg: ConfigV, s: Seq<u8>, begin: int, limit: int) -> Seq<Seq<u8>> {
    drop_word(c_rawtags(cfg, s, begin, limit), cfg.archive_tag)
}

/// Whether the archive tag stood among the raw tags.
pub open spec fn c_archived(cfg: ConfigV, s: Seq<u8>, begin: int, limit: int) -> bool {
    word_in(c_rawtags(cfg, s, begin, limit), cfg.archive_tag)
}

/// Start of the trimmed raw title text.
pub open spec fn c_rawlo(cfg: ConfigV, s: Seq<u8>, begin: int, limit: int) -> int {
    scan_while(
        s,
        c_titlestart(cfg, s, begin, limit),
        c_titleend(cfg, s, begin, limit),
        trim_pred(),
    )
}

/// End of the trimmed raw title text.
pub open spec fn c_rawhi(cfg: ConfigV, s: Seq<u8>, begin: int, limit: int) -> int {
    rscan_while(
        s,
        c_rawlo(cfg, s, begin, limit),
        c_titleend(cfg, s, begin, limit),
        trim_pred(),
    )
}

/// The raw headline text: title span trimmed of surrounding whitespace.
pub open spec fn c_raw(cfg: ConfigV, s: Seq<u8>, begin: int, limit: int) -> Seq<u8> {
    s.subrange(c_rawlo(cfg, s, begin, limit), c_rawhi(cfg, s, begin, limit))
}

/// Whether the raw title equals the configured footnote-section literal.
pub open spec fn c_footnote(cfg: ConfigV, s: Seq<u8>, begin: int, limit: int) -> bool {
    match cfg.footnote_section {
        Option::Some(f) => c_raw(cfg, s, begin, limit) == f,
        Option::None => false,
    }
}

/// Start of the line after the headline line.
pub open spec fn c_next(s: Seq<u8>, begin: int) -> int {
    next_line_start(s, begin)
}

/// End of the subtree: the first line start at or after `p` holding a valid
/// headline opening of reduced level at most `level`, or `limit` when none
/// exists before it.
pub open spec fn subtree_end(cfg: ConfigV, s: Seq<u8>, p: int, level: int, limit: int) -> int
    decreases s.len() - p,
    via subtree_end_dec
{
    if p >= limit || p >= s.len() || p < 0 {
        limit
    } else if opening_at(s, p, limit) && c_level(cfg, s, p, limit) <= level {
        p
    } else {
        subtree_end(cfg, s, next_line_start(s, p), level, limit)
    }
}

#[via_fn]
proof fn subtree_end_dec(cfg: ConfigV, s: Seq<u8>, p: int, level: int, limit: int) {
    if !(p >= limit || p >= s.len() || p < 0) {
        lemma_next_line_start(s, p);
    }
}

/// End of this headline's subtree.
pub open spec fn c_end(cfg: ConfigV, s: Seq<u8>, begin: int, limit: int) -> int {
    subtree_end(cfg, s, c_next(s, begin), c_level(cfg, s, begin, limit), limit)
}

/// Start of the contents: the line of the first non-blank byte after the
/// headline line, absent when only blanks remain before `e`.
pub open spec fn contents_begin_of(s: Seq<u8>, nl: int, e: int) -> Option<int> {
    if nl >= e {
        Option::None
    } else {
        let q = scan_while(s, nl, e, blank_pred());
        if q >= e {
            Option::None
        } else {
            Option::Some(bol(s, q))
        }
    }
}

/// End of the contents: the start of the line following the last non-blank
/// byte before `e`, clipped to `e`.
pub open spec fn contents_end_of(s: Seq<u8>, cb: int, e: int) -> int {
    let r = rscan_while(s, cb, e, blank_pred());
    if next_line_start(s, r) < e {
        next_line_start(s, r)
    } else {
        e
    }
}

pub open spec fn c_cb(cfg: ConfigV, s: Seq<u8>, begin: int, limit: int) -> Option<int> {
    contents_begin_of(s, c_next(s, begin), c_end(cfg, s, begin, limit))
}

pub open spec fn c_ce(cfg: ConfigV, s: Seq<u8>, begin: int, limit: int) -> Option<int> {
    match c_cb(cfg, s, begin, limit) {
        Option::Some(cb) => Option::Some(contents_end_of(s, cb, c_end(cfg, s, begin, limit))),
        Option::None => Option::None,
    }
}

/// Blank lines between the headline line and the first content line.
pub open spec fn c_preblank(cfg: ConfigV, s: Seq<u8>, begin: int, limit: int) -> int {
    match c_cb(cfg, s, begin, limit) {
        Option::Some(cb) => count_nl(s, begin, cb) - 1,
        Option::None => 0,
    }
}

/// Blank lines between the contents' end and the subtree end; without
/// contents, the blank lines under the headline line itself.
pub open spec fn c_postblank(cfg: ConfigV, s: Seq<u8>, begin: int, limit: int) -> int {
    match c_ce(cfg, s, begin, limit) {
        Option::Some(ce) => count_lines(s, ce, c_end(cfg, s, begin, limit)),
        Option::None => count_lines(s, begin, c_end(cfg, s, begin, limit)) - 1,
    }
}

/// Whether a line exists between the headline line and the subtree end for
/// planning information to stand on.
pub open spec fn c_plan_active(cfg: ConfigV, s: Seq<u8>, begin: int, limit: int) -> bool {
    c_next(s, begin) < c_end(cfg, s, begin, limit)
}

/// The planning information attached to this headline: that of the line
/// immediately after it, when that line is inside the subtree.
pub open spec fn c_plan(cfg: ConfigV, s: Seq<u8>, begin: int, limit: int) -> crate::planning::PlanningV {
    if c_plan_active(cfg, s, begin, limit) {
        crate::planning::planning_of(s, c_next(s, begin))
    } else {
        crate::planning::empty_planning()
    }
}

/// Where the property drawer is expected: after the planning line when one
/// is present, else directly after the headline line.
pub open spec fn c_dstart(cfg: ConfigV, s: Seq<u8>, begin: int, limit: int) -> int {
    if c_plan_active(cfg, s, begin, limit) && crate::planning::is_planning_line(
        s,
        c_next(s, begin),
        line_end(s, c_next(s, begin)),
    ) {
        next_line_start(s, c_next(s, begin))
    } else {
        c_next(s, begin)
    }
}

/// The ordered key/value pairs of the section's property drawer, empty
/// when there is none.
pub open spec fn c_props(cfg: ConfigV, s: Seq<u8>, begin: int, limit: int) -> Seq<
    (Seq<u8>, Seq<u8>),
> {
    match crate::drawer::drawer_at(s, c_dstart(cfg, s, begin, limit), c_end(cfg, s, begin, limit)) {
        Option::Some(d) => d.props,
        Option::None => Seq::empty(),
    }
}

/// The tag-word views of executable tags.
pub open spec fn tag_views(v: Seq<Tag>) -> Seq<Seq<u8>> {
    v.map_values(|t: Tag| t.0@)
}

pub proof fn lemma_first_kw(kws: Seq<Seq<u8>>, k: int, s: Seq<u8>, i: int)
    requires
        0 <= k,
    ensures
        match first_kw(kws, k, s, i) {
            Option::Some(m) => k <= m < kws.len() && token_at(s, i, kws[m]),
            Option::None => forall|m: int| k <= m < kws.len() ==> !token_at(s, i, kws[m]),
        },
    decreases kws.len() - k,
{
    if k < kws.len() && !token_at(s, i, kws[k]) {
        lemma_first_kw(kws, k + 1, s, i);
    }
}

pub proof fn lemma_tags_start(s: Seq<u8>, t: int, eol: int)
    ensures
        match tags_start(s, t, eol) {
            Option::Some(m) => t <= m < eol && tags_match_at(s, m, eol),
            Option::None => forall|m: int| t <= m < eol ==> !tags_match_at(s, m, eol),
        },
    decreases eol - t,
{
    if t < eol && !tags_match_at(s, t, eol) {
        lemma_tags_start(s, t + 1, eol);
    }
}

/// Removing a word removes every occurrence of it and nothing else.
pub proof fn lemma_drop_word_one(list: Seq<Seq<u8>>, w: Seq<u8>, x: Seq<u8>)
    ensures
        word_in(drop_word(list, w), x) == (word_in(list, x) && x != w),
    decreases list.len(),
{
    if list.len() == 0 {
        assert(!word_in(Seq::<Seq<u8>>::empty(), x));
        assert(!word_in(list, x));
    } else {
        lemma_drop_word_one(list.drop_first(), w, x);
        let rest = drop_word(list.drop_first(), w);
        lemma_word_in_cons_split(list, x);
        if list.first() == w {
            assert(drop_word(list, w) == rest);
        } else {
            assert(drop_word(list, w) == seq![list.first()] + rest);
            lemma_word_in_cons(list.first(), rest, x);
        }
    }
}

/// Removing a word removes every occurrence of it and nothing else.
pub proof fn lemma_drop_word(list: Seq<Seq<u8>>, w: Seq<u8>)
    ensures
        forall|x: Seq<u8>| word_in(drop_word(list, w), x) == (word_in(list, x) && x != w),
{
    assert forall|x: Seq<u8>| word_in(drop_word(list, w), x) == (word_in(list, x) && x != w) by {
        lemma_drop_word_one(list, w, x);
    }
}

/// Membership in a non-empty list is membership in its head or tail.
pub proof fn lemma_word_in_cons_split(list: Seq<Seq<u8>>, x: Seq<u8>)
    requires
        list.len() > 0,
    ensures
        word_in(list, x) == (list.first() == x || word_in(list.drop_first(), x)),
{
    if list.first() == x {
        assert(list[0] == x);
        assert(word_in(list, x));
    }
    if word_in(list.drop_first(), x) {
        let i = choose|i: int| 0 <= i < list.drop_first().len() && list.drop_first()[i] == x;
        assert(list[i + 1] == x);
        assert(word_in(list, x));
    }
    if word_in(list, x) {
        let i = choose|i: int| 0 <= i < list.len() && list[i] == x;
        if i == 0 {
            assert(list.first() == x);
        } else {
            assert(list.drop_first()[i - 1] == x);
            assert(word_in(list.drop_first(), x));
        }
    }
}

/// Membership in a cons list is membership in its head or tail.
pub proof fn lemma_word_in_cons(seg: Seq<u8>, rest: Seq<Seq<u8>>, x: Seq<u8>)
    ensures
        word_in(seq![seg] + rest, x) == (seg == x || word_in(rest, x)),
{
    let list = seq![seg] + rest;
    assert(list.len() == 1 + rest.len());
    assert(list.first() == seg);
    assert(list.drop_first() =~= rest);
    lemma_word_in_cons_split(list, x);
}

/// Unfolding of `drop_word` over an explicit cons cell.
pub proof fn lemma_drop_word_cons(seg: Seq<u8>, rest: Seq<Seq<u8>>, w: Seq<u8>)
    ensures
        drop_word(seq![seg] + rest, w) == if seg == w {
            drop_word(rest, w)
        } else {
            seq![seg] + drop_word(rest, w)
        },
{
    let list = seq![seg] + rest;
    assert(list.len() == 1 + rest.len());
    assert(list.first() == seg);
    assert(list.drop_first() =~= rest);
}

/// Adjacent subranges concatenate to the enclosing one.
pub proof fn lemma_concat3(s: Seq<u8>, a: int, b: int, c: int)
    requires
        0 <= a <= b <= c <= s.len(),
    ensures
        s.subrange(a, b) + s.subrange(b, c) == s.subrange(a, c),
{
    assert(s.subrange(a, b) + s.subrange(b, c) =~= s.subrange(a, c));
}

/// The field cuts of the headline line stand in order between the line's
/// start and its end, and the trimmed raw-title span sits inside the title
/// span.
pub proof fn lemma_cuts(cfg: ConfigV, s: Seq<u8>, begin: int, limit: int)
    requires
        config_wf(cfg),
        0 <= begin <= limit <= s.len(),
    ensures
        begin <= c_stars(s, begin, limit) <= c_kwstart(s, begin, limit),
        c_kwstart(s, begin, limit) <= c_afterkw(cfg, s, begin, limit),
        c_afterkw(cfg, s, begin, limit) <= c_afterprio(cfg, s, begin, limit),
        c_afterprio(cfg, s, begin, limit) <= c_titlestart(cfg, s, begin, limit),
        c_titlestart(cfg, s, begin, limit) <= c_titleend(cfg, s, begin, limit),
        c_titleend(cfg, s, begin, limit) <= c_eol(s, begin) <= s.len(),
        begin <= c_eol(s, begin),
        c_stars(s, begin, limit) <= limit,
        c_titlestart(cfg, s, begin, limit) <= c_rawlo(cfg, s, begin, limit),
        c_rawlo(cfg, s, begin, limit) <= c_rawhi(cfg, s, begin, limit),
        c_rawhi(cfg, s, begin, limit) <= c_titleend(cfg, s, begin, limit),
{
    let se = c_stars(s, begin, limit);
    lemma_scan_while(s, begin, limit, star_pred());
    let p1 = c_kwstart(s, begin, limit);
    lemma_scan_while(s, se, limit, sp_pred());
    let kw = c_kw(cfg, s, begin, limit);
    lemma_first_kw(cfg.todo_keywords, 0, s, p1);
    let ak = c_afterkw(cfg, s, begin, limit);
    match kw {
        Option::Some(k) => {
            assert(token_at(s, p1, cfg.todo_keywords[k]));
            assert(crate::config::literal_ok(cfg.todo_keywords[k]));
            lemma_scan_while(s, p1 + cfg.todo_keywords[k].len(), limit, sp_pred());
        },
        Option::None => {},
    }
    let ap = c_afterprio(cfg, s, begin, limit);
    if prio_at(s, ak) {
        lemma_scan_while(s, ak + 4, limit, sp_pred());
    }
    let t0 = c_titlestart(cfg, s, begin, limit);
    if c_commented(cfg, s, begin, limit) {
        assert(crate::config::literal_ok(cfg.comment_marker));
        lemma_scan_while(s, ap + cfg.comment_marker.len(), limit, sp_pred());
    }
    assert forall|j: int| begin <= j < t0 implies s[j] != 10 by {
        if j < se {
            assert((star_pred())(s[j]));
        } else if j < p1 {
            assert((sp_pred())(s[j]));
        } else {
            match kw {
                Option::Some(k) => {
                    let klen = cfg.todo_keywords[k].len();
                    if j < p1 + klen {
                        assert(s.subrange(p1, p1 + klen)[j - p1] == s[j]);
                        assert(s[j] == cfg.todo_keywords[k][j - p1]);
                        assert(!is_blank(cfg.todo_keywords[k][j - p1]));
                    } else if j < ak {
                        assert((sp_pred())(s[j]));
                    } else {
                        lemma_cuts_tail(cfg, s, ak, ap, t0, j, limit);
                    }
                },
                Option::None => {
                    lemma_cuts_tail(cfg, s, ak, ap, t0, j, limit);
                },
            }
        }
    }
    lemma_next_line_start(s, begin);
    let eol = c_eol(s, begin);
    if eol < t0 {
        assert(s[eol] == 10);
        assert(false);
    }
    lemma_tags_start(s, t0, eol);
    let te = c_titleend(cfg, s, begin, limit);
    lemma_scan_while(s, t0, te, trim_pred());
    lemma_rscan_while(s, c_rawlo(cfg, s, begin, limit), te, trim_pred());
}

/// Bytes between the keyword's end and the title start are never newlines:
/// they belong to the priority cookie, the comment marker or whitespace.
proof fn lemma_cuts_tail(cfg: ConfigV, s: Seq<u8>, ak: int, ap: int, t0: int, j: int, limit: int)
    requires
        config_wf(cfg),
        0 <= ak <= s.len(),
        ak <= j < t0,
        ap == (if prio_at(s, ak) {
            scan_while(s, ak + 4, limit, sp_pred())
        } else {
            ak
        }),
        t0 == (if token_at(s, ap, cfg.comment_marker) {
            scan_while(s, ap + cfg.comment_marker.len(), limit, sp_pred())
        } else {
            ap
        }),
        ap <= s.len(),
        t0 <= s.len(),
    ensures
        s[j] != 10,
{
    if j < ap {
        if prio_at(s, ak) {
            if j < ak + 4 {
                assert(s[ak] == 91 && s[ak + 1] == 35 && s[ak + 2] != 10 && s[ak + 3] == 93);
            } else {
                lemma_sp_between(s, ak + 4, ap, j, limit);
            }
        }
    } else {
        if token_at(s, ap, cfg.comment_marker) {
            let cm = cfg.comment_marker;
            if j < ap + cm.len() {
                assert(s.subrange(ap, ap + cm.len())[j - ap] == s[j]);
                assert(s[j] == cm[j - ap]);
                assert(!is_blank(cm[j - ap]));
            } else {
                lemma_sp_between(s, ap + cm.len(), t0, j, limit);
            }
        }
    }
}

/// A byte strictly inside a whitespace scan is whitespace, so no newline.
proof fn lemma_sp_between(s: Seq<u8>, a: int, b: int, j: int, limit: int)
    requires
        0 <= a <= s.len(),
        a <= j < b,
        b <= scan_while(s, a, limit, sp_pred()),
    ensures
        s[j] != 10,
{
    lemma_scan_while(s, a, limit, sp_pred());
    assert((sp_pred())(s[j]));
    assert(is_sp(s[j]));
}

/// The spans of the headline line, cut at the field boundaries, concatenate
/// back to the line itself: markers, whitespace, keyword with its
/// whitespace, priority cookie with its whitespace, comment marker with its
/// whitespace, title, and trailing tags with their whitespace.
pub proof fn lemma_round_trip(cfg: ConfigV, s: Seq<u8>, begin: int, limit: int)
    requires
        config_wf(cfg),
        0 <= begin <= limit <= s.len(),
    ensures
        s.subrange(begin, c_stars(s, begin, limit)) + s.subrange(
            c_stars(s, begin, limit),
            c_kwstart(s, begin, limit),
        ) + s.subrange(c_kwstart(s, begin, limit), c_afterkw(cfg, s, begin, limit)) + s.subrange(
            c_afterkw(cfg, s, begin, limit),
            c_afterprio(cfg, s, begin, limit),
        ) + s.subrange(c_afterprio(cfg, s, begin, limit), c_titlestart(cfg, s, begin, limit))
            + s.subrange(c_titlestart(cfg, s, begin, limit), c_titleend(cfg, s, begin, limit))
            + s.subrange(c_titleend(cfg, s, begin, limit), c_eol(s, begin)) == s.subrange(
            begin,
            c_eol(s, begin),
        ),
{
    lemma_cuts(cfg, s, begin, limit);
    let se = c_stars(s, begin, limit);
    let p1 = c_kwstart(s, begin, limit);
    let ak = c_afterkw(cfg, s, begin, limit);
    let ap = c_afterprio(cfg, s, begin, limit);
    let t0 = c_titlestart(cfg, s, begin, limit);
    let te = c_titleend(cfg, s, begin, limit);
    let eol = c_eol(s, begin);
    lemma_concat3(s, begin, se, p1);
    lemma_concat3(s, begin, p1, ak);
    lemma_concat3(s, begin, ak, ap);
    lemma_concat3(s, begin, ap, t0);
    lemma_concat3(s, begin, t0, te);
    lemma_concat3(s, begin, te, eol);
}

/// Whether `w` stands at `i` as a whole token.
fn match_token(input: &Vec<u8>, i: usize, w: &Vec<u8>) -> (b: bool)
    requires
        i <= input@.len(),
    ensures
        b == token_at(input@, i as int, w@),
{
    if w.len() == 0 {
        return false;
    }
    if !crate::scan::match_bytes(input, i, w) {
        return false;
    }
    let n = input.len();
    let e = i + w.len();
    if e == n {
        true
    } else {
        let c = input[e];
        c == 32 || c == 9 || c == 13 || c == 10
    }
}

/// The first configured TODO keyword standing as a whole token at `i`.
fn find_todo_kw(config: &crate::config::Config, input: &Vec<u8>, i: usize) -> (r: Option<usize>)
    requires
        i <= input@.len(),
    ensures
        match r {
            Option::Some(k) => k < config.todo_keywords@.len() && first_kw(
                config@.todo_keywords,
                0,
                input@,
                i as int,
            ) == Option::Some(k as int),
            Option::None => first_kw(config@.todo_keywords, 0, input@, i as int) is None,
        },
{
    let ghost kws = config@.todo_keywords;
    let mut k: usize = 0;
    while k < config.todo_keywords.len()
        invariant
            i <= input@.len(),
            k <= config.todo_keywords@.len(),
            kws == config@.todo_keywords,
            kws.len() == config.todo_keywords@.len(),
            first_kw(kws, k as int, input@, i as int) == first_kw(kws, 0, input@, i as int),
        decreases config.todo_keywords@.len() - k,
    {
        proof {
            assert(kws[k as int] == config.todo_keywords@[k as int]@);
        }
        if match_token(input, i, &config.todo_keywords[k]) {
            return Some(k);
        }
        k = k + 1;
    }
    None
}

/// The priority cookie `[#X]` at `i`, yielding `X`.
fn check_prio(input: &Vec<u8>, i: usize) -> (r: Option<u8>)
    requires
        i <= input@.len(),
    ensures
        (r is Some) == prio_at(input@, i as int),
        r matches Some(c) ==> c == input@[i + 2],
{
    let n = input.len();
    if n < 4 || i > n - 4 {
        return None;
    }
    if input[i] == 91 && input[i + 1] == 35 && input[i + 2] != 10 && input[i + 3] == 93 {
        Some(input[i + 2])
    } else {
        None
    }
}

/// Whether `c` may stand inside a colon-delimited tag group.
fn tag_run_byte(c: u8) -> (b: bool)
    ensures
        b == (crate::scan::is_tag_byte(c) || c == 58),
{
    (48 <= c && c <= 57) || (65 <= c && c <= 90) || (97 <= c && c <= 122) || c == 95 || c == 64
        || c == 35 || c == 37 || c == 58
}

/// Forward skip over tag bytes and colons.
fn skip_tag_run(input: &Vec<u8>, i: usize, bound: usize) -> (r: usize)
    requires
        i <= input@.len(),
    ensures
        r as int == scan_while(input@, i as int, bound as int, tag_run_pred()),
        i <= r <= input@.len(),
{
    let mut j = i;
    while j < bound && j < input.len() && tag_run_byte(input[j])
        invariant
            i <= j <= input@.len(),
            scan_while(input@, j as int, bound as int, tag_run_pred()) == scan_while(
                input@,
                i as int,
                bound as int,
                tag_run_pred(),
            ),
        decreases input@.len() - j,
    {
        j = j + 1;
    }
    proof {
        lemma_scan_while(input@, j as int, bound as int, tag_run_pred());
    }
    j
}

/// Whether the trailing tag run matches at `t`.
fn tags_here(input: &Vec<u8>, t: usize, eol: usize) -> (b: bool)
    requires
        t <= input@.len(),
        eol <= input@.len(),
    ensures
        b == tags_match_at(input@, t as int, eol as int),
{
    if t >= eol {
        return false;
    }
    let c = input[t];
    if !(c == 32 || c == 9) {
        return false;
    }
    let w = crate::scan::skip_sp(input, t, eol);
    let ge = skip_tag_run(input, w, eol);
    ge - w >= 2 && input[w] == 58 && input[ge - 1] == 58 && crate::scan::skip_sp(input, ge, eol)
        == eol
}

/// Search the title span for the trailing tag run, split it at colons, and
/// filter out the archive tag while noting whether it was present. Returns
/// the title's end (the run's start, or `eol`), the stored tags and the
/// archive flag.
fn scan_tags(input: &Vec<u8>, t0: usize, eol: usize, archive: &Vec<u8>) -> (r: (
    usize,
    Vec<Tag>,
    bool,
))
    requires
        t0 <= eol,
        eol <= input@.len(),
    ensures
        ({
            let ts = tags_start(input@, t0 as int, eol as int);
            let rt = spec_raw_tags(input@, t0 as int, eol as int);
            (match ts {
                Option::Some(t) => r.0 as int == t,
                Option::None => r.0 == eol,
            }) && tag_views(r.1@) == drop_word(rt, archive@) && r.2 == word_in(rt, archive@)
        }),
{
    let ghost s = input@;
    let mut t = t0;
    let mut found = false;
    while t < eol && !found
        invariant
            t0 <= t <= eol <= input@.len(),
            s == input@,
            found ==> tags_match_at(s, t as int, eol as int),
            found ==> tags_start(s, t0 as int, eol as int) == Option::Some(t as int),
            !found ==> tags_start(s, t as int, eol as int) == tags_start(
                s,
                t0 as int,
                eol as int,
            ),
        decreases eol - t + (if found {
            0int
        } else {
            1int
        }),
    {
        if tags_here(input, t, eol) {
            found = true;
        } else {
            t = t + 1;
        }
    }
    if !found {
        proof {
            assert(tags_start(s, t as int, eol as int) is None);
            assert(spec_raw_tags(s, t0 as int, eol as int) =~= Seq::<Seq<u8>>::empty());
            assert(tag_views(Seq::<Tag>::empty()) =~= Seq::<Seq<u8>>::empty());
            assert(drop_word(Seq::<Seq<u8>>::empty(), archive@) =~= Seq::<Seq<u8>>::empty());
            assert(!word_in(Seq::<Seq<u8>>::empty(), archive@));
        }
        return (eol, Vec::new(), false);
    }
    proof {
        assert(tags_start(s, t as int, eol as int) == Option::Some(t as int));
    }
    let w = crate::scan::skip_sp(input, t, eol);
    let ge = skip_tag_run(input, w, eol);
    let ghost glo = w as int;
    let ghost ghi = ge as int;
    let mut cur = w;
    let mut tags: Vec<Tag> = Vec::new();
    let mut archived = false;
    proof {
        assert(tag_views(tags@) =~= Seq::<Seq<u8>>::empty());
        assert(tag_views(tags@) + drop_word(split_at(s, cur as int, ghi), archive@) =~= drop_word(
            split_at(s, glo, ghi),
            archive@,
        ));
    }
    while cur < ge
        invariant
            glo <= cur as int <= ghi,
            ghi == ge as int,
            w as int == glo,
            ge <= input@.len(),
            s == input@,
            tags_start(s, t0 as int, eol as int) == Option::Some(t as int),
            glo == group_lo(s, t as int, eol as int),
            ghi == group_hi(s, t as int, eol as int),
            tag_views(tags@) + drop_word(split_at(s, cur as int, ghi), archive@) == drop_word(
                split_at(s, glo, ghi),
                archive@,
            ),
            (archived || word_in(split_at(s, cur as int, ghi), archive@)) == word_in(
                split_at(s, glo, ghi),
                archive@,
            ),
        decreases ge - cur,
    {
        let j = crate::scan::find_byte(input, cur, ge, 58);
        proof {
            lemma_scan_while(s, cur as int, ge as int, non_byte_pred(58));
        }
        let ghost seg_spec = s.subrange(cur as int, j as int);
        let nxt = if j < ge {
            j + 1
        } else {
            ge
        };
        proof {
            assert(split_at(s, cur as int, ghi) == (if seg_spec.len() > 0 {
                seq![seg_spec] + split_at(s, nxt as int, ghi)
            } else {
                split_at(s, nxt as int, ghi)
            }));
        }
        if j > cur {
            let seg = crate::scan::copy_range(input, cur, j);
            proof {
                lemma_drop_word_cons(seg_spec, split_at(s, nxt as int, ghi), archive@);
                lemma_word_in_cons(seg_spec, split_at(s, nxt as int, ghi), archive@);
            }
            if crate::scan::bytes_eq(&seg, archive) {
                archived = true;
            } else {
                let ghost prev = tag_views(tags@);
                tags.push(Tag(seg));
                proof {
                    assert(tag_views(tags@) =~= prev.push(seg_spec));
                    assert(prev.push(seg_spec) =~= prev + seq![seg_spec]);
                    assert((prev + seq![seg_spec]) + drop_word(
                        split_at(s, nxt as int, ghi),
                        archive@,
                    ) =~= prev + (seq![seg_spec] + drop_word(split_at(s, nxt as int, ghi), archive@)));
                }
            }
        }
        cur = nxt;
    }
    proof {
        assert(split_at(s, cur as int, ghi) =~= Seq::<Seq<u8>>::empty());
        assert(drop_word(Seq::<Seq<u8>>::empty(), archive@) =~= Seq::<Seq<u8>>::empty());
        assert(tag_views(tags@) + Seq::<Seq<u8>>::empty() =~= tag_views(tags@));
        assert(!word_in(Seq::<Seq<u8>>::empty(), archive@));
        assert(spec_raw_tags(s, t0 as int, eol as int) == split_at(s, glo, ghi));
    }
    (t, tags, archived)
}

/// The raw tag words found from `t0` on the line ending at `eol`.
pub open spec fn spec_raw_tags(s: Seq<u8>, t0: int, eol: int) -> Seq<Seq<u8>> {
    match tags_start(s, t0, eol) {
        Option::Some(t) => split_at(s, group_lo(s, t, eol), group_hi(s, t, eol)),
        Option::None => Seq::empty(),
    }
}

/// The subtree end: first line start at or after `nl` opening a headline of
/// reduced level at most `level`, or `limit`.
fn find_subtree_end(
    config: &crate::config::Config,
    input: &Vec<u8>,
    nl: usize,
    level: usize,
    limit: usize,
) -> (r: usize)
    requires
        nl <= input@.len(),
        limit <= input@.len(),
    ensures
        r as int == subtree_end(config@, input@, nl as int, level as int, limit as int),
        r <= limit,
        r >= nl || r as int == limit as int,
{
    let ghost s = input@;
    let mut p = nl;
    while p < limit
        invariant
            nl <= p <= input@.len(),
            limit <= input@.len(),
            s == input@,
            subtree_end(config@, s, p as int, level as int, limit as int) == subtree_end(
                config@,
                s,
                nl as int,
                level as int,
                limit as int,
            ),
        decreases input@.len() - p,
    {
        let at_bol = p == 0 || input[p - 1] == 10;
        let se = crate::scan::skip_stars(input, p, limit);
        let mut opening = at_bol && se > p;
        if opening && se < input.len() {
            let c = input[se];
            opening = c == 32 || c == 9 || c == 13 || c == 10;
        }
        if opening {
            let m = se - p;
            let rl = if config.odd_levels_only {
                m / 2 + m % 2
            } else {
                m
            };
            proof {
                assert(rl as int == reduced_level(config@, m as int));
            }
            if rl <= level {
                proof {
                    assert(opening_at(s, p as int, limit as int));
                    assert(subtree_end(config@, s, p as int, level as int, limit as int)
                        == p as int);
                }
                return p;
            }
        }
        let pn = crate::scan::next_line(input, p);
        proof {
            lemma_next_line_start(s, p as int);
            assert(!(opening_at(s, p as int, limit as int) && c_level(
                config@,
                s,
                p as int,
                limit as int,
            ) <= level as int));
        }
        p = pn;
    }
    limit
}

/// Full relation between a returned headline node and the cut functions:
/// every offset, flag, text and attachment of the node equals the
/// corresponding cut of the buffer.
pub open spec fn headline_matches(
    cfg: ConfigV,
    s: Seq<u8>,
    begin: int,
    limit: int,
    raw_secondary: bool,
    node: crate::types::SyntaxNode<crate::types::HeadlineData>,
) -> bool {
    &&& node.begin == begin
    &&& node.post_affiliated == begin
    &&& node.end as int == c_end(cfg, s, begin, limit)
    &&& (match c_cb(cfg, s, begin, limit) {
        Option::Some(cb) => node.contents_begin matches Option::Some(v) && v as int == cb,
        Option::None => node.contents_begin is None,
    })
    &&& (match c_ce(cfg, s, begin, limit) {
        Option::Some(ce) => node.contents_end matches Option::Some(v) && v as int == ce,
        Option::None => node.contents_end is None,
    })
    &&& node.pre_blank as int == c_preblank(cfg, s, begin, limit)
    &&& node.data.pre_blank == node.pre_blank
    &&& node.post_blank as int == c_postblank(cfg, s, begin, limit)
    &&& node.data.level as int == c_level(cfg, s, begin, limit)
    &&& (match c_kw(cfg, s, begin, limit) {
        Option::Some(k) => node.data.todo_keyword matches Option::Some(t) && t.0@
            == cfg.todo_keywords[k],
        Option::None => node.data.todo_keyword is None,
    })
    &&& node.data.priority == c_priority(cfg, s, begin, limit)
    &&& node.data.commentedp == c_commented(cfg, s, begin, limit)
    &&& node.data.archivedp == c_archived(cfg, s, begin, limit)
    &&& node.data.footnote_section_p == c_footnote(cfg, s, begin, limit)
    &&& node.data.quotedp == false
    &&& node.data.raw_value@ == c_raw(cfg, s, begin, limit)
    &&& tag_views(node.data.tags@) == c_tags_stored(cfg, s, begin, limit)
    &&& (if raw_secondary {
        node.data.title matches crate::types::SecondaryString::Raw(v) && v@ == c_raw(
            cfg,
            s,
            begin,
            limit,
        )
    } else {
        node.data.title matches crate::types::SecondaryString::Span { begin: b, end: e } && b
            as int == c_rawlo(cfg, s, begin, limit) && e as int == c_rawhi(cfg, s, begin, limit)
    })
    &&& crate::planning::planning_matches(
        node.data.closed,
        node.data.deadline,
        node.data.scheduled,
        c_plan(cfg, s, begin, limit),
        s,
    )
    &&& crate::drawer::props_pairs(node.data.properties@) == c_props(cfg, s, begin, limit)
}

/// Parse the headline opening at `begin`, bounded by `limit`. Fails exactly
/// when no valid opening stands at `begin`: the position must be the first
/// character of a line that begins with a run of at least one star ended by
/// whitespace or the buffer end. Otherwise every field of the returned node
/// is the corresponding cut of the buffer.
#[verifier::rlimit(100)]
pub fn headline_node(
    config: &crate::config::Config,
    input: &Vec<u8>,
    begin: usize,
    limit: usize,
    raw_secondary: bool,
) -> (r: Result<
    crate::types::SyntaxNode<crate::types::HeadlineData>,
    crate::types::ParseError,
>)
    requires
        config_wf(config@),
        begin <= limit,
        limit <= input@.len(),
    ensures
        r.is_ok() == opening_at(input@, begin as int, limit as int),
        r matches Err(e) ==> e == (crate::types::ParseError::MalformedHeadline { at: begin }),
        r matches Ok(node) ==> headline_matches(
            config@,
            input@,
            begin as int,
            limit as int,
            raw_secondary,
            node,
        ),
{
    let ghost s = input@;
    let ghost cfg = config@;
    let n = input.len();
    let at_bol = begin == 0 || input[begin - 1] == 10;
    let se = crate::scan::skip_stars(input, begin, limit);
    let mut opening = at_bol && se > begin;
    if opening && se < n {
        let c = input[se];
        opening = c == 32 || c == 9 || c == 13 || c == 10;
    }
    if !opening {
        return Err(crate::types::ParseError::MalformedHeadline { at: begin });
    }
    proof {
        lemma_cuts(cfg, s, begin as int, limit as int);
        lemma_next_line_start(s, begin as int);
    }
    let stars = se - begin;
    let level = if config.odd_levels_only {
        stars / 2 + stars % 2
    } else {
        stars
    };
    proof {
        assert(level as int == reduced_level(cfg, stars as int));
    }
    let p1 = crate::scan::skip_sp(input, se, limit);
    let kw_idx = find_todo_kw(config, input, p1);
    let mut todo_keyword: Option<crate::types::TodoKeyword> = None;
    let mut p2 = p1;
    match kw_idx {
        Some(k) => {
            proof {
                lemma_first_kw(cfg.todo_keywords, 0, s, p1 as int);
                assert(cfg.todo_keywords[k as int] == config.todo_keywords@[k as int]@);
                assert(token_at(s, p1 as int, cfg.todo_keywords[k as int]));
            }
            let kl = config.todo_keywords[k].len();
            let kw_vec = crate::scan::copy_range(input, p1, p1 + kl);
            todo_keyword = Some(crate::types::TodoKeyword(kw_vec));
            p2 = crate::scan::skip_sp(input, p1 + kl, limit);
        },
        None => {},
    }
    let prio = check_prio(input, p2);
    let p3 = match prio {
        Some(_) => crate::scan::skip_sp(input, p2 + 4, limit),
        None => p2,
    };
    let commented = match_token(input, p3, &config.comment_marker);
    let t0 = if commented {
        proof {
            assert(p3 + config.comment_marker@.len() <= n);
        }
        crate::scan::skip_sp(input, p3 + config.comment_marker.len(), limit)
    } else {
        p3
    };
    let eol = crate::scan::find_line_end(input, begin);
    proof {
        assert(t0 as int == c_titlestart(cfg, s, begin as int, limit as int));
        assert(t0 <= eol);
    }
    let (title_end, tags, archived) = scan_tags(input, t0, eol, &config.archive_tag);
    proof {
        assert(title_end as int == c_titleend(cfg, s, begin as int, limit as int));
        assert(spec_raw_tags(s, t0 as int, eol as int) == c_rawtags(
            cfg,
            s,
            begin as int,
            limit as int,
        ));
    }
    let raw_lo = crate::scan::skip_trim(input, t0, title_end);
    let raw_hi = crate::scan::rskip_trim(input, raw_lo, title_end);
    let raw_value = crate::scan::copy_range(input, raw_lo, raw_hi);
    let footnote = match &config.footnote_section {
        Some(f) => crate::scan::bytes_eq(&raw_value, f),
        None => false,
    };
    let nl = crate::scan::next_line(input, begin);
    let end_pos = find_subtree_end(config, input, nl, level, limit);
    proof {
        assert(begin < limit);
        assert(begin < nl);
        assert(end_pos > begin);
        assert(end_pos as int == c_end(cfg, s, begin as int, limit as int));
    }
    let active = nl < end_pos;
    let (closed, deadline, scheduled) = if active {
        crate::planning::planning_parse(input, nl)
    } else {
        (None, None, None)
    };
    let dstart = if active && crate::planning::planning_opens(input, nl) {
        crate::scan::next_line(input, nl)
    } else {
        nl
    };
    let props = match crate::drawer::parse_drawer(input, dstart, end_pos) {
        Some(pr) => pr.0,
        None => {
            let empty_props: Vec<crate::types::NodePropertyData> = Vec::new();
            proof {
                assert(crate::drawer::props_pairs(empty_props@) =~= Seq::<(Seq<u8>, Seq<u8>)>::empty());
            }
            empty_props
        },
    };
    let mut cb_opt: Option<usize> = None;
    if nl < end_pos {
        let q = crate::scan::skip_blank(input, nl, end_pos);
        if q < end_pos {
            cb_opt = Some(crate::scan::find_bol(input, q));
        }
    }
    let mut ce_opt: Option<usize> = None;
    let mut pre_b: usize = 0;
    let mut post_b: usize = 0;
    match cb_opt {
        Some(cbv) => {
            let ghost q = scan_while(s, nl as int, end_pos as int, blank_pred());
            proof {
                lemma_scan_while(s, nl as int, end_pos as int, blank_pred());
                assert(!is_blank(s[q]));
                lemma_rscan_while(s, 0, q, non_byte_pred(10));
                assert(nl as int == next_line_start(s, begin as int));
                assert(nl < n);
                assert(s[nl - 1] == 10);
                if (cbv as int) < nl as int {
                    assert(nl - 1 >= cbv as int && nl - 1 < q);
                    assert(s[nl - 1] != 10);
                }
                assert(cbv >= nl);
                assert(cbv > 0);
                assert(s[cbv - 1] == 10);
                lemma_count_nl(s, begin as int, cbv as int);
                assert(count_nl(s, begin as int, cbv as int) >= 1);
            }
            let cnt = crate::scan::count_newlines(input, begin, cbv);
            pre_b = cnt - 1;
            let r0 = crate::scan::rskip_blank(input, cbv, end_pos);
            let nr = crate::scan::next_line(input, r0);
            let cev = if nr < end_pos {
                nr
            } else {
                end_pos
            };
            ce_opt = Some(cev);
            proof {
                lemma_rscan_while(s, cbv as int, end_pos as int, blank_pred());
                lemma_next_line_start(s, r0 as int);
                assert(cev >= 1);
                assert(cev as int == contents_end_of(s, cbv as int, end_pos as int));
            }
            let cnt2 = crate::scan::count_newlines(input, cev, end_pos);
            post_b = if end_pos > cev && input[end_pos - 1] != 10 {
                cnt2 + 1
            } else {
                cnt2
            };
            proof {
                assert(post_b as int == count_lines(s, cev as int, end_pos as int));
            }
        },
        None => {
            let cnt3 = crate::scan::count_newlines(input, begin, end_pos);
            proof {
                lemma_count_nl(s, begin as int, end_pos as int);
            }
            post_b = if input[end_pos - 1] != 10 {
                cnt3
            } else {
                proof {
                    assert(count_nl(s, begin as int, end_pos as int) >= 1);
                }
                cnt3 - 1
            };
            proof {
                assert(post_b as int == count_lines(s, begin as int, end_pos as int) - 1);
            }
        },
    }
    let title = if raw_secondary {
        crate::types::SecondaryString::Raw(crate::scan::copy_range(input, raw_lo, raw_hi))
    } else {
        crate::types::SecondaryString::Span { begin: raw_lo, end: raw_hi }
    };
    let data = crate::types::HeadlineData {
        archivedp: archived,
        closed,
        commentedp: commented,
        deadline,
        footnote_section_p: footnote,
        level,
        pre_blank: pre_b,
        priority: prio,
        properties: props,
        quotedp: false,
        raw_value,
        scheduled,
        tags,
        title,
        todo_keyword,
    };
    let node = crate::types::SyntaxNode {
        begin,
        end: end_pos,
        contents_begin: cb_opt,
        contents_end: ce_opt,
        pre_blank: pre_b,
        post_blank: post_b,
        post_affiliated: begin,
        data,
    };
    Ok(node)
}

/// Bounds of the subtree end: never past `limit`, and no earlier than the
/// scan's start unless it is `limit` itself.
pub proof fn lemma_subtree_bounds(cfg: ConfigV, s: Seq<u8>, p: int, level: int, limit: int)
    requires
        0 <= p,
        limit <= s.len(),
    ensures
        subtree_end(cfg, s, p, level, limit) <= limit,
        subtree_end(cfg, s, p, level, limit) >= p || subtree_end(cfg, s, p, level, limit)
            == limit,
    decreases s.len() - p,
{
    if !(p >= limit || p >= s.len() || p < 0) {
        if !(opening_at(s, p, limit) && c_level(cfg, s, p, limit) <= level) {
            lemma_next_line_start(s, p);
            lemma_subtree_bounds(cfg, s, next_line_start(s, p), level, limit);
        }
    }
}

/// An inline-task end line: at least the configured minimum number of
/// stars, whitespace, the configured end marker as a whole token, and only
/// whitespace to the line end.
pub open spec fn it_end_line(cfg: ConfigV, s: Seq<u8>, p: int, limit: int) -> bool {
    let se = c_stars(s, p, limit);
    let w = scan_while(s, se, limit, sp_pred());
    se - p >= cfg.inlinetask_min_level && w > se && token_at(s, w, cfg.inlinetask_end_marker)
        && scan_while(s, w + cfg.inlinetask_end_marker.len(), line_end(s, p), sp_pred())
        == line_end(s, p)
}

/// Line start of the first inline-task end line at or after `p`, before
/// `limit`.
pub open spec fn it_term(cfg: ConfigV, s: Seq<u8>, p: int, limit: int) -> Option<int>
    decreases s.len() - p,
    via it_term_dec
{
    if p >= limit || p >= s.len() || p < 0 {
        Option::None
    } else if it_end_line(cfg, s, p, limit) {
        Option::Some(p)
    } else {
        it_term(cfg, s, next_line_start(s, p), limit)
    }
}

#[via_fn]
proof fn it_term_dec(cfg: ConfigV, s: Seq<u8>, p: int, limit: int) {
    if !(p >= limit || p >= s.len() || p < 0) {
        lemma_next_line_start(s, p);
    }
}

/// Where the inline task ends: after its end-marker line, or after its own
/// first line when no end marker follows before `limit`.
pub open spec fn c_it_end(cfg: ConfigV, s: Seq<u8>, begin: int, limit: int) -> int {
    match it_term(cfg, s, c_next(s, begin), limit) {
        Option::Some(tb) => if next_line_start(s, tb) < limit {
            next_line_start(s, tb)
        } else {
            limit
        },
        Option::None => if c_next(s, begin) < limit {
            c_next(s, begin)
        } else {
            limit
        },
    }
}

/// Relation between an inline-task node and the buffer: the first-line
/// fields are cut exactly as for a headline; the extent runs to the
/// dedicated end-marker line instead of the next shallower headline; no
/// planning line or property drawer is attached.
pub open spec fn inlinetask_matches(
    cfg: ConfigV,
    s: Seq<u8>,
    begin: int,
    limit: int,
    raw_secondary: bool,
    node: crate::types::SyntaxNode<crate::types::HeadlineData>,
) -> bool {
    &&& node.begin == begin
    &&& node.post_affiliated == begin
    &&& node.end as int == c_it_end(cfg, s, begin, limit)
    &&& (match it_term(cfg, s, c_next(s, begin), limit) {
        Option::Some(tb) => if c_next(s, begin) < tb {
            (node.contents_begin matches Option::Some(v) && v as int == c_next(s, begin)) && (
            node.contents_end matches Option::Some(v2) && v2 as int == tb)
        } else {
            node.contents_begin is None && node.contents_end is None
        },
        Option::None => node.contents_begin is None && node.contents_end is None,
    })
    &&& node.pre_blank == 0
    &&& node.post_blank == 0
    &&& node.data.pre_blank == 0
    &&& node.data.level as int == c_level(cfg, s, begin, limit)
    &&& (match c_kw(cfg, s, begin, limit) {
        Option::Some(k) => node.data.todo_keyword matches Option::Some(t) && t.0@
            == cfg.todo_keywords[k],
        Option::None => node.data.todo_keyword is None,
    })
    &&& node.data.priority == c_priority(cfg, s, begin, limit)
    &&& node.data.commentedp == c_commented(cfg, s, begin, limit)
    &&& node.data.archivedp == c_archived(cfg, s, begin, limit)
    &&& node.data.footnote_section_p == c_footnote(cfg, s, begin, limit)
    &&& node.data.quotedp == false
    &&& node.data.raw_value@ == c_raw(cfg, s, begin, limit)
    &&& tag_views(node.data.tags@) == c_tags_stored(cfg, s, begin, limit)
    &&& (if raw_secondary {
        node.data.title matches crate::types::SecondaryString::Raw(v) && v@ == c_raw(
            cfg,
            s,
            begin,
            limit,
        )
    } else {
        node.data.title matches crate::types::SecondaryString::Span { begin: b, end: e } && b
            as int == c_rawlo(cfg, s, begin, limit) && e as int == c_rawhi(cfg, s, begin, limit)
    })
    &&& node.data.closed is None
    &&& node.data.deadline is None
    &&& node.data.scheduled is None
    &&& node.data.properties@.len() == 0
}

/// Whether the line at `p` is an inline-task end line.
fn it_end_check(
    config: &crate::config::Config,
    input: &Vec<u8>,
    p: usize,
    limit: usize,
) -> (b: bool)
    requires
        p <= input@.len(),
        limit <= input@.len(),
    ensures
        b == it_end_line(config@, input@, p as int, limit as int),
{
    let n = input.len();
    let se = crate::scan::skip_stars(input, p, limit);
    let w = crate::scan::skip_sp(input, se, limit);
    if !(se - p >= config.inlinetask_min_level && w > se) {
        return false;
    }
    if !match_token(input, w, &config.inlinetask_end_marker) {
        return false;
    }
    let eolp = crate::scan::find_line_end(input, p);
    proof {
        assert(w + config.inlinetask_end_marker@.len() <= n);
    }
    let e = crate::scan::skip_sp(input, w + config.inlinetask_end_marker.len(), eolp);
    e == eolp
}

/// First inline-task end line at or after `nl`, before `limit`.
fn find_it_term(
    config: &crate::config::Config,
    input: &Vec<u8>,
    nl: usize,
    limit: usize,
) -> (r: Option<usize>)
    requires
        nl <= input@.len(),
        limit <= input@.len(),
    ensures
        match r {
            Option::Some(tb) => it_term(config@, input@, nl as int, limit as int) == Option::Some(
                tb as int,
            ) && nl <= tb < limit,
            Option::None => it_term(config@, input@, nl as int, limit as int) is None,
        },
{
    let ghost s = input@;
    let mut p = nl;
    while p < limit
        invariant
            nl <= p <= input@.len(),
            limit <= input@.len(),
            s == input@,
            it_term(config@, s, p as int, limit as int) == it_term(
                config@,
                s,
                nl as int,
                limit as int,
            ),
        decreases input@.len() - p,
    {
        if it_end_check(config, input, p, limit) {
            return Some(p);
        }
        let pn = crate::scan::next_line(input, p);
        proof {
            lemma_next_line_start(s, p as int);
        }
        p = pn;
    }
    None
}

/// Parse the inline task opening at `begin`: the headline-style first-line
/// fields, terminated by the dedicated end-marker line rather than by the
/// next shallower headline. Fails exactly when no valid opening with at
/// least the configured minimum star count stands at `begin`. Planning
/// lines and property drawers are not attached to inline tasks here.
#[verifier::rlimit(100)]
pub fn inlinetask_node(
    config: &crate::config::Config,
    input: &Vec<u8>,
    begin: usize,
    limit: usize,
    raw_secondary: bool,
) -> (r: Result<
    crate::types::SyntaxNode<crate::types::HeadlineData>,
    crate::types::ParseError,
>)
    requires
        config_wf(config@),
        begin <= limit,
        limit <= input@.len(),
    ensures
        r.is_ok() == (opening_at(input@, begin as int, limit as int) && c_stars(
            input@,
            begin as int,
            limit as int,
        ) - begin >= config@.inlinetask_min_level),
        r matches Err(e) ==> e == (crate::types::ParseError::MalformedHeadline { at: begin }),
        r matches Ok(node) ==> inlinetask_matches(
            config@,
            input@,
            begin as int,
            limit as int,
            raw_secondary,
            node,
        ),
{
    let ghost s = input@;
    let ghost cfg = config@;
    let n = input.len();
    let at_bol = begin == 0 || input[begin - 1] == 10;
    let se = crate::scan::skip_stars(input, begin, limit);
    let mut opening = at_bol && se > begin;
    if opening && se < n {
        let c = input[se];
        opening = c == 32 || c == 9 || c == 13 || c == 10;
    }
    if !opening || se - begin < config.inlinetask_min_level {
        return Err(crate::types::ParseError::MalformedHeadline { at: begin });
    }
    proof {
        lemma_cuts(cfg, s, begin as int, limit as int);
        lemma_next_line_start(s, begin as int);
    }
    let stars = se - begin;
    let level = if config.odd_levels_only {
        stars / 2 + stars % 2
    } else {
        stars
    };
    proof {
        assert(level as int == reduced_level(cfg, stars as int));
    }
    let p1 = crate::scan::skip_sp(input, se, limit);
    let kw_idx = find_todo_kw(config, input, p1);
    let mut todo_keyword: Option<crate::types::TodoKeyword> = None;
    let mut p2 = p1;
    match kw_idx {
        Some(k) => {
            proof {
                lemma_first_kw(cfg.todo_keywords, 0, s, p1 as int);
                assert(cfg.todo_keywords[k as int] == config.todo_keywords@[k as int]@);
                assert(token_at(s, p1 as int, cfg.todo_keywords[k as int]));
            }
            let kl = config.todo_keywords[k].len();
            let kw_vec = crate::scan::copy_range(input, p1, p1 + kl);
            todo_keyword = Some(crate::types::TodoKeyword(kw_vec));
            p2 = crate::scan::skip_sp(input, p1 + kl, limit);
        },
        None => {},
    }
    let prio = check_prio(input, p2);
    let p3 = match prio {
        Some(_) => crate::scan::skip_sp(input, p2 + 4, limit),
        None => p2,
    };
    let commented = match_token(input, p3, &config.comment_marker);
    let t0 = if commented {
        proof {
            assert(p3 + config.comment_marker@.len() <= n);
        }
        crate::scan::skip_sp(input, p3 + config.comment_marker.len(), limit)
    } else {
        p3
    };
    let eol = crate::scan::find_line_end(input, begin);
    let (title_end, tags, archived) = scan_tags(input, t0, eol, &config.archive_tag);
    proof {
        assert(spec_raw_tags(s, t0 as int, eol as int) == c_rawtags(
            cfg,
            s,
            begin as int,
            limit as int,
        ));
    }
    let raw_lo = crate::scan::skip_trim(input, t0, title_end);
    let raw_hi = crate::scan::rskip_trim(input, raw_lo, title_end);
    let raw_value = crate::scan::copy_range(input, raw_lo, raw_hi);
    let footnote = match &config.footnote_section {
        Some(f) => crate::scan::bytes_eq(&raw_value, f),
        None => false,
    };
    let nl = crate::scan::next_line(input, begin);
    let term = find_it_term(config, input, nl, limit);
    let mut cb_opt: Option<usize> = None;
    let mut ce_opt: Option<usize> = None;
    let end_pos: usize;
    match term {
        Some(tb) => {
            let e0 = crate::scan::next_line(input, tb);
            end_pos = if e0 < limit {
                e0
            } else {
                limit
            };
            if nl < tb {
                cb_opt = Some(nl);
                ce_opt = Some(tb);
            }
        },
        None => {
            end_pos = if nl < limit {
                nl
            } else {
                limit
            };
        },
    }
    let title = if raw_secondary {
        crate::types::SecondaryString::Raw(crate::scan::copy_range(input, raw_lo, raw_hi))
    } else {
        crate::types::SecondaryString::Span { begin: raw_lo, end: raw_hi }
    };
    let props: Vec<crate::types::NodePropertyData> = Vec::new();
    let data = crate::types::HeadlineData {
        archivedp: archived,
        closed: None,
        commentedp: commented,
        deadline: None,
        footnote_section_p: footnote,
        level,
        pre_blank: 0,
        priority: prio,
        properties: props,
        quotedp: false,
        raw_value,
        scheduled: None,
        tags,
        title,
        todo_keyword,
    };
    let node = crate::types::SyntaxNode {
        begin,
        end: end_pos,
        contents_begin: cb_opt,
        contents_end: ce_opt,
        pre_blank: 0,
        post_blank: 0,
        post_affiliated: begin,
        data,
    };
    Ok(node)
}

} // verus!
