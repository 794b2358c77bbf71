//! Planning-line parser: recognizes, on the single line immediately after a
//! headline, `KEYWORD: TIMESTAMP` pairs among the literals CLOSED, DEADLINE
//! and SCHEDULED, in any order. Keyword matching is case-sensitive. A line
//! that does not open (after optional whitespace) with one of the three
//! keywords is not a planning line: all fields stay unset, which is a normal
//! outcome. When a keyword repeats, the last pair wins. A keyword whose
//! timestamp span is missing or unclosed contributes nothing. A timestamp
//! span runs from an opening `<` or `[` to the first matching `>` or `]` on
//! the line; its interior is the business of the external timestamp parser.

use vstd::prelude::*;

use crate::scan::{is_sp, line_end, non_byte_pred, non_sp_pred, scan_while, sp_pred};
use crate::scan::{find_byte, find_line_end, lemma_scan_while, skip_non_sp, skip_sp, copy_range};
use crate::types::TimestampData;

verus! {

/// A half-open span of buffer offsets.
pub ghost struct Span {
    pub lo: int,
    pub hi: int,
}

/// The three optional planning references of one line, as spans.
pub ghost struct PlanningV {
    pub closed: Option<Span>,
    pub deadline: Option<Span>,
    pub scheduled: Option<Span>,
}

pub open spec fn empty_planning() -> PlanningV {
    PlanningV { closed: Option::None, deadline: Option::None, scheduled: Option::None }
}

pub open spec fn closed_lit() -> Seq<u8> {
    seq![67u8, 76u8, 79u8, 83u8, 69u8, 68u8]
}

pub open spec fn deadline_lit() -> Seq<u8> {
    seq![68u8, 69u8, 65u8, 68u8, 76u8, 73u8, 78u8, 69u8]
}

pub open spec fn scheduled_lit() -> Seq<u8> {
    seq![83u8, 67u8, 72u8, 69u8, 68u8, 85u8, 76u8, 69u8, 68u8]
}

/// `kw` followed directly by a colon, wholly before `eol`.
pub open spec fn plan_kw_at(s: Seq<u8>, i: int, eol: int, kw: Seq<u8>) -> bool {
    0 <= i && i + kw.len() < eol && eol <= s.len() && s.subrange(i, i + kw.len()) == kw && s[i
        + kw.len()] == 58
}

/// The timestamp span at `v`: from an opening `<` or `[` to the first
/// matching closer before `eol`; none when `v` holds no opener or the
/// closer is missing.
pub open spec fn ts_at(s: Seq<u8>, v: int, eol: int) -> Option<Span> {
    if 0 <= v && v < eol && eol <= s.len() && (s[v] == 60 || s[v] == 91) {
        let close: u8 = if s[v] == 60 {
            62
        } else {
            93
        };
        let j = scan_while(s, v + 1, eol, non_byte_pred(close));
        if j < eol {
            Option::Some(Span { lo: v, hi: j + 1 })
        } else {
            Option::None
        }
    } else {
        Option::None
    }
}

/// One left-to-right pass over the line: whitespace is skipped, a planning
/// keyword with its timestamp updates the accumulator (last pair wins), and
/// any other token is skipped whole.
pub open spec fn plan_scan(s: Seq<u8>, i: int, eol: int, acc: PlanningV) -> PlanningV
    decreases eol - i,
    via plan_scan_dec
{
    if i >= eol || eol > s.len() || i < 0 {
        acc
    } else if is_sp(s[i]) {
        plan_scan(s, i + 1, eol, acc)
    } else if plan_kw_at(s, i, eol, closed_lit()) {
        let v = scan_while(s, i + closed_lit().len() + 1, eol, sp_pred());
        match ts_at(s, v, eol) {
            Option::Some(sp) => plan_scan(
                s,
                sp.hi,
                eol,
                PlanningV { closed: Option::Some(sp), ..acc },
            ),
            Option::None => plan_scan(s, v, eol, acc),
        }
    } else if plan_kw_at(s, i, eol, deadline_lit()) {
        let v = scan_while(s, i + deadline_lit().len() + 1, eol, sp_pred());
        match ts_at(s, v, eol) {
            Option::Some(sp) => plan_scan(
                s,
                sp.hi,
                eol,
                PlanningV { deadline: Option::Some(sp), ..acc },
            ),
            Option::None => plan_scan(s, v, eol, acc),
        }
    } else if plan_kw_at(s, i, eol, scheduled_lit()) {
        let v = scan_while(s, i + scheduled_lit().len() + 1, eol, sp_pred());
        match ts_at(s, v, eol) {
            Option::Some(sp) => plan_scan(
                s,
                sp.hi,
                eol,
                PlanningV { scheduled: Option::Some(sp), ..acc },
            ),
            Option::None => plan_scan(s, v, eol, acc),
        }
    } else {
        plan_scan(s, scan_while(s, i, eol, non_sp_pred()), eol, acc)
    }
}

#[via_fn]
proof fn plan_scan_dec(s: Seq<u8>, i: int, eol: int, acc: PlanningV) {
    if !(i >= eol || eol > s.len() || i < 0) && !is_sp(s[i]) {
        if plan_kw_at(s, i, eol, closed_lit()) {
            lemma_scan_while(s, i + closed_lit().len() + 1, eol, sp_pred());
            let v = scan_while(s, i + closed_lit().len() + 1, eol, sp_pred());
            if v + 1 <= s.len() {
                lemma_scan_while(s, v + 1, eol, non_byte_pred(62));
                lemma_scan_while(s, v + 1, eol, non_byte_pred(93));
            }
        } else if plan_kw_at(s, i, eol, deadline_lit()) {
            lemma_scan_while(s, i + deadline_lit().len() + 1, eol, sp_pred());
            let v = scan_while(s, i + deadline_lit().len() + 1, eol, sp_pred());
            if v + 1 <= s.len() {
                lemma_scan_while(s, v + 1, eol, non_byte_pred(62));
                lemma_scan_while(s, v + 1, eol, non_byte_pred(93));
            }
        } else if plan_kw_at(s, i, eol, scheduled_lit()) {
            lemma_scan_while(s, i + scheduled_lit().len() + 1, eol, sp_pred());
            let v = scan_while(s, i + scheduled_lit().len() + 1, eol, sp_pred());
            if v + 1 <= s.len() {
                lemma_scan_while(s, v + 1, eol, non_byte_pred(62));
                lemma_scan_while(s, v + 1, eol, non_byte_pred(93));
            }
        } else {
            lemma_scan_while(s, i, eol, non_sp_pred());
        }
    }
}

/// Whether the line starting at `p` opens (after optional whitespace) with
/// one of the three planning keywords followed by a colon.
pub open spec fn is_planning_line(s: Seq<u8>, p: int, eol: int) -> bool {
    let w = scan_while(s, p, eol, sp_pred());
    plan_kw_at(s, w, eol, closed_lit()) || plan_kw_at(s, w, eol, deadline_lit()) || plan_kw_at(
        s,
        w,
        eol,
        scheduled_lit(),
    )
}

/// The planning information of the line at `p`: the scan's result when the
/// line is a planning line, all fields unset otherwise.
pub open spec fn planning_of(s: Seq<u8>, p: int) -> PlanningV {
    if is_planning_line(s, p, line_end(s, p)) {
        plan_scan(s, p, line_end(s, p), empty_planning())
    } else {
        empty_planning()
    }
}

/// Relation between an executable timestamp reference and a ghost span.
pub open spec fn ts_matches(o: Option<TimestampData>, g: Option<Span>, s: Seq<u8>) -> bool {
    match o {
        Option::Some(t) => g matches Option::Some(sp) && t.begin == sp.lo && t.end == sp.hi
            && t.raw@ == s.subrange(sp.lo, sp.hi),
        Option::None => g is None,
    }
}

/// Relation between the three executable references and a ghost scan result.
pub open spec fn planning_matches(
    c: Option<TimestampData>,
    d: Option<TimestampData>,
    sc: Option<TimestampData>,
    g: PlanningV,
    s: Seq<u8>,
) -> bool {
    ts_matches(c, g.closed, s) && ts_matches(d, g.deadline, s) && ts_matches(sc, g.scheduled, s)
}

fn closed_vec() -> (r: Vec<u8>)
    ensures
        r@ == closed_lit(),
{
    let mut v: Vec<u8> = Vec::new();
    v.push(67);
    v.push(76);
    v.push(79);
    v.push(83);
    v.push(69);
    v.push(68);
    proof {
        assert(v@ =~= closed_lit());
    }
    v
}

fn deadline_vec() -> (r: Vec<u8>)
    ensures
        r@ == deadline_lit(),
{
    let mut v: Vec<u8> = Vec::new();
    v.push(68);
    v.push(69);
    v.push(65);
    v.push(68);
    v.push(76);
    v.push(73);
    v.push(78);
    v.push(69);
    proof {
        assert(v@ =~= deadline_lit());
    }
    v
}

fn scheduled_vec() -> (r: Vec<u8>)
    ensures
        r@ == scheduled_lit(),
{
    let mut v: Vec<u8> = Vec::new();
    v.push(83);
    v.push(67);
    v.push(72);
    v.push(69);
    v.push(68);
    v.push(85);
    v.push(76);
    v.push(69);
    v.push(68);
    proof {
        assert(v@ =~= scheduled_lit());
    }
    v
}

/// Whether `kw` stands at `i` followed directly by a colon, before `eol`.
fn plan_kw_match(input: &Vec<u8>, i: usize, eol: usize, kw: &Vec<u8>) -> (b: bool)
    requires
        i <= input@.len(),
        eol <= input@.len(),
    ensures
        b == plan_kw_at(input@, i as int, eol as int, kw@),
{
    if i >= eol || eol - i <= kw.len() {
        return false;
    }
    if !crate::scan::match_bytes(input, i, kw) {
        return false;
    }
    input[i + kw.len()] == 58
}

/// The timestamp span opening at `v`, if a closed one is there.
fn take_ts(input: &Vec<u8>, v: usize, eol: usize) -> (r: Option<TimestampData>)
    requires
        v <= input@.len(),
        eol <= input@.len(),
    ensures
        ts_matches(r, ts_at(input@, v as int, eol as int), input@),
        r matches Some(t) ==> v < t.end <= eol,
{
    if v >= eol {
        return None;
    }
    let c = input[v];
    if c != 60 && c != 91 {
        return None;
    }
    let close: u8 = if c == 60 {
        62
    } else {
        93
    };
    let j = find_byte(input, v + 1, eol, close);
    proof {
        lemma_scan_while(input@, v + 1, eol as int, non_byte_pred(close));
    }
    if j < eol {
        let raw = copy_range(input, v, j + 1);
        Some(TimestampData { begin: v, end: j + 1, raw })
    } else {
        None
    }
}

/// Whether the line at `p` opens with a planning keyword.
pub fn planning_opens(input: &Vec<u8>, p: usize) -> (b: bool)
    requires
        p <= input@.len(),
    ensures
        b == is_planning_line(input@, p as int, line_end(input@, p as int)),
{
    let eol = find_line_end(input, p);
    let w = skip_sp(input, p, eol);
    let cl = closed_vec();
    let dl = deadline_vec();
    let sl = scheduled_vec();
    let b1 = plan_kw_match(input, w, eol, &cl);
    let b2 = plan_kw_match(input, w, eol, &dl);
    let b3 = plan_kw_match(input, w, eol, &sl);
    b1 || b2 || b3
}

/// Scan the planning line at `p` and return the CLOSED, DEADLINE and
/// SCHEDULED references found on it, the last pair winning per keyword.
pub fn planning_parse(input: &Vec<u8>, p: usize) -> (r: (
    Option<TimestampData>,
    Option<TimestampData>,
    Option<TimestampData>,
))
    requires
        p <= input@.len(),
    ensures
        planning_matches(r.0, r.1, r.2, planning_of(input@, p as int), input@),
{
    let eol = find_line_end(input, p);
    let w = skip_sp(input, p, eol);
    let cl = closed_vec();
    let dl = deadline_vec();
    let sl = scheduled_vec();
    let opens = plan_kw_match(input, w, eol, &cl) || plan_kw_match(input, w, eol, &dl)
        || plan_kw_match(input, w, eol, &sl);
    if !opens {
        assert(!is_planning_line(input@, p as int, eol as int));
        return (None, None, None);
    }
    let mut closed: Option<TimestampData> = None;
    let mut deadline: Option<TimestampData> = None;
    let mut scheduled: Option<TimestampData> = None;
    let mut i = p;
    let ghost s = input@;
    while i < eol
        invariant
            p <= i <= input@.len(),
            eol as int == line_end(input@, p as int),
            eol <= input@.len(),
            s == input@,
            cl@ == closed_lit(),
            dl@ == deadline_lit(),
            sl@ == scheduled_lit(),
            ({
                let g = PlanningV {
                    closed: spec_ts_view(closed, s),
                    deadline: spec_ts_view(deadline, s),
                    scheduled: spec_ts_view(scheduled, s),
                };
                ts_matches(closed, g.closed, s) && ts_matches(deadline, g.deadline, s)
                    && ts_matches(scheduled, g.scheduled, s) && plan_scan(s, i as int, eol as int, g)
                    == plan_scan(s, p as int, eol as int, empty_planning())
            }),
        decreases eol - i,
    {
        let c = input[i];
        if c == 32 || c == 9 {
            i = i + 1;
        } else if plan_kw_match(input, i, eol, &cl) {
            let v = skip_sp(input, i + 6 + 1, eol);
            proof {
                lemma_scan_while(s, i + 6 + 1, eol as int, sp_pred());
            }
            let t = take_ts(input, v, eol);
            match t {
                Some(ts) => {
                    let e = ts.end;
                    closed = Some(ts);
                    i = e;
                },
                None => {
                    i = v;
                },
            }
        } else if plan_kw_match(input, i, eol, &dl) {
            let v = skip_sp(input, i + 8 + 1, eol);
            proof {
                lemma_scan_while(s, i + 8 + 1, eol as int, sp_pred());
            }
            let t = take_ts(input, v, eol);
            match t {
                Some(ts) => {
                    let e = ts.end;
                    deadline = Some(ts);
                    i = e;
                },
                None => {
                    i = v;
                },
            }
        } else if plan_kw_match(input, i, eol, &sl) {
            let v = skip_sp(input, i + 9 + 1, eol);
            proof {
                lemma_scan_while(s, i + 9 + 1, eol as int, sp_pred());
            }
            let t = take_ts(input, v, eol);
            match t {
                Some(ts) => {
                    let e = ts.end;
                    scheduled = Some(ts);
                    i = e;
                },
                None => {
                    i = v;
                },
            }
        } else {
            let j = skip_non_sp(input, i, eol);
            proof {
                lemma_scan_while(s, i as int, eol as int, non_sp_pred());
                assert((non_sp_pred())(s[i as int]) == !is_sp(s[i as int]));
                assert(!is_sp(s[i as int]));
                assert(j > i);
            }
            i = j;
        }
    }
    (closed, deadline, scheduled)
}

/// Ghost view of an executable timestamp option as a span option.
pub open spec fn spec_ts_view(o: Option<TimestampData>, s: Seq<u8>) -> Option<Span> {
    match o {
        Option::Some(t) => Option::Some(Span { lo: t.begin as int, hi: t.end as int }),
        Option::None => Option::None,
    }
}

} // verus!
