//! Property-drawer and node-property parser: a block opening with a
//! case-insensitive `:PROPERTIES:` line, closing with a case-insensitive
//! `:END:` line, whose interior lines have the shape `:KEY: VALUE` with a
//! whitespace- and colon-free KEY. A malformed interior line is skipped
//! rather than aborting the drawer; a drawer without its `:END:` line before
//! the bound is no drawer at all. Keys are stored upper-cased with their
//! leading colon; repeated keys are all kept, in written order.

use vstd::prelude::*;

use crate::scan::{
    blank_pred, bol, count_lines, is_blank, line_end, next_line_start, rscan_while, scan_while,
    sp_pred, to_lower, to_upper, trim_pred,
};
use crate::scan::{
    copy_range, count_newlines, find_bol, find_line_end, lemma_next_line_start, lemma_scan_while,
    next_line, rskip_trim, skip_blank, skip_sp, skip_trim,
};
use crate::types::{NodePropertyData, PropertyDrawerData, SyntaxNode};

verus! {

pub open spec fn key_pred() -> spec_fn(u8) -> bool {
    |c: u8| !is_blank(c) && c != 58
}

pub open spec fn upper_fn() -> spec_fn(u8) -> u8 {
    |c: u8| to_upper(c)
}

/// The bytes of `:PROPERTIES:`.
pub open spec fn properties_lit() -> Seq<u8> {
    seq![58u8, 80u8, 82u8, 79u8, 80u8, 69u8, 82u8, 84u8, 73u8, 69u8, 83u8, 58u8]
}

/// The bytes of `:END:`.
pub open spec fn end_lit() -> Seq<u8> {
    seq![58u8, 69u8, 78u8, 68u8, 58u8]
}

/// Case-insensitive (ASCII) match of `lit` at position `i`.
pub open spec fn ci_eq_at(s: Seq<u8>, i: int, lit: Seq<u8>) -> bool {
    0 <= i && i + lit.len() <= s.len() && forall|j: int|
        0 <= j < lit.len() ==> to_lower(s[i + j]) == to_lower(lit[j])
}

/// A line holding only optional whitespace, `lit` (case-insensitively) and
/// optional trailing whitespace.
pub open spec fn lit_line_at(s: Seq<u8>, p: int, eol: int, lit: Seq<u8>) -> bool {
    let w = scan_while(s, p, eol, sp_pred());
    ci_eq_at(s, w, lit) && scan_while(s, w + lit.len(), eol, sp_pred()) == eol
}

/// The key/value pair of the node-property line at `p`, when well-formed:
/// optional whitespace, `:`, a non-empty whitespace- and colon-free key,
/// `:`, then either the line end, a space, or only whitespace. The key is
/// stored upper-cased behind a leading colon; the value is trimmed.
pub open spec fn node_prop_at(s: Seq<u8>, p: int, eol: int) -> Option<(Seq<u8>, Seq<u8>)> {
    let w = scan_while(s, p, eol, sp_pred());
    if w < eol && eol <= s.len() && s[w] == 58 {
        let k = scan_while(s, w + 1, eol, key_pred());
        if k > w + 1 && k < eol && s[k] == 58 {
            let c = k + 1;
            if c == eol || s[c] == 32 || scan_while(s, c, eol, sp_pred()) == eol {
                let lo = scan_while(s, c, eol, trim_pred());
                let hi = rscan_while(s, lo, eol, trim_pred());
                Option::Some(
                    (
                        seq![58u8] + s.subrange(w + 1, k).map_values(upper_fn()),
                        s.subrange(lo, hi),
                    ),
                )
            } else {
                Option::None
            }
        } else {
            Option::None
        }
    } else {
        Option::None
    }
}

/// Walk the interior lines from `p`: a `:END:` line closes the drawer and
/// yields the collected pairs with its own line start; a well-formed
/// node-property line is collected; anything else is skipped. No `:END:`
/// before `bound` means no drawer.
pub open spec fn drawer_scan(s: Seq<u8>, p: int, bound: int, acc: Seq<(Seq<u8>, Seq<u8>)>) -> Option<
    (Seq<(Seq<u8>, Seq<u8>)>, int),
>
    decreases s.len() - p,
    via drawer_scan_dec
{
    if p >= bound || bound > s.len() || p < 0 {
        Option::None
    } else {
        let eol = line_end(s, p);
        if lit_line_at(s, p, eol, end_lit()) {
            Option::Some((acc, p))
        } else {
            let acc2 = match node_prop_at(s, p, eol) {
                Option::Some(kv) => acc.push(kv),
                Option::None => acc,
            };
            drawer_scan(s, next_line_start(s, p), bound, acc2)
        }
    }
}

#[via_fn]
proof fn drawer_scan_dec(s: Seq<u8>, p: int, bound: int, acc: Seq<(Seq<u8>, Seq<u8>)>) {
    if !(p >= bound || bound > s.len() || p < 0) {
        lemma_next_line_start(s, p);
    }
}

/// The drawer's collected state: its ordered pairs and the line start of
/// its closing `:END:` line.
pub ghost struct DrawerV {
    pub props: Seq<(Seq<u8>, Seq<u8>)>,
    pub end_bol: int,
}

/// The property drawer at `dstart`, bounded by `bound`: present only when
/// the first line is a `:PROPERTIES:` line and a `:END:` line follows
/// before `bound`.
pub open spec fn drawer_at(s: Seq<u8>, dstart: int, bound: int) -> Option<DrawerV> {
    if 0 <= dstart && dstart < bound && bound <= s.len() && lit_line_at(
        s,
        dstart,
        line_end(s, dstart),
        properties_lit(),
    ) {
        match drawer_scan(s, next_line_start(s, dstart), bound, Seq::empty()) {
            Option::Some(pe) => Option::Some(DrawerV { props: pe.0, end_bol: pe.1 }),
            Option::None => Option::None,
        }
    } else {
        Option::None
    }
}

/// The key/value views of executable node properties.
pub open spec fn props_pairs(v: Seq<NodePropertyData>) -> Seq<(Seq<u8>, Seq<u8>)> {
    v.map_values(|p: NodePropertyData| (p.key@, p.value@))
}

fn properties_vec() -> (r: Vec<u8>)
    ensures
        r@ == properties_lit(),
{
    let mut v: Vec<u8> = Vec::new();
    v.push(58);
    v.push(80);
    v.push(82);
    v.push(79);
    v.push(80);
    v.push(69);
    v.push(82);
    v.push(84);
    v.push(73);
    v.push(69);
    v.push(83);
    v.push(58);
    proof {
        assert(v@ =~= properties_lit());
    }
    v
}

fn end_vec() -> (r: Vec<u8>)
    ensures
        r@ == end_lit(),
{
    let mut v: Vec<u8> = Vec::new();
    v.push(58);
    v.push(69);
    v.push(78);
    v.push(68);
    v.push(58);
    proof {
        assert(v@ =~= end_lit());
    }
    v
}

fn lower_byte(c: u8) -> (r: u8)
    ensures
        r == to_lower(c),
{
    if 65 <= c && c <= 90 {
        c + 32
    } else {
        c
    }
}

fn upper_byte(c: u8) -> (r: u8)
    ensures
        r == to_upper(c),
{
    if 97 <= c && c <= 122 {
        c - 32
    } else {
        c
    }
}

/// Case-insensitive match of `lit` at `i`.
fn ci_match(input: &Vec<u8>, i: usize, lit: &Vec<u8>) -> (b: bool)
    requires
        i <= input@.len(),
    ensures
        b == ci_eq_at(input@, i as int, lit@),
{
    if input.len() - i < lit.len() {
        return false;
    }
    let mut j: usize = 0;
    while j < lit.len()
        invariant
            j <= lit@.len(),
            i + lit@.len() <= input@.len() <= usize::MAX,
            forall|m: int| 0 <= m < j ==> to_lower(input@[i + m]) == to_lower(lit@[m]),
        decreases lit@.len() - j,
    {
        if lower_byte(input[i + j]) != lower_byte(lit[j]) {
            return false;
        }
        j = j + 1;
    }
    true
}

/// Whether the line at `p` is `lit` alone on its line (case-insensitive).
fn lit_line_match(input: &Vec<u8>, p: usize, eol: usize, lit: &Vec<u8>) -> (b: bool)
    requires
        p <= input@.len(),
        eol <= input@.len(),
    ensures
        b == lit_line_at(input@, p as int, eol as int, lit@),
{
    let w = skip_sp(input, p, eol);
    if !ci_match(input, w, lit) {
        return false;
    }
    let total = input.len();
    proof {
        assert(w + lit@.len() <= total);
    }
    let e = skip_sp(input, w + lit.len(), eol);
    e == eol
}

/// Forward skip over key bytes (no whitespace, no colon).
fn skip_key(input: &Vec<u8>, i: usize, bound: usize) -> (r: usize)
    requires
        i <= input@.len(),
    ensures
        r as int == scan_while(input@, i as int, bound as int, key_pred()),
        i <= r <= input@.len(),
{
    let mut j = i;
    while j < bound && j < input.len() && !(input[j] == 32 || input[j] == 9 || input[j] == 13
        || input[j] == 10 || input[j] == 58)
        invariant
            i <= j <= input@.len(),
            scan_while(input@, j as int, bound as int, key_pred()) == scan_while(
                input@,
                i as int,
                bound as int,
                key_pred(),
            ),
        decreases input@.len() - j,
    {
        j = j + 1;
    }
    proof {
        lemma_scan_while(input@, j as int, bound as int, key_pred());
    }
    j
}

/// Parse the node-property line at `p`, yielding its entry when the line is
/// well-formed and nothing when it is to be skipped.
pub fn parse_node_prop(input: &Vec<u8>, p: usize, eol: usize) -> (r: Option<NodePropertyData>)
    requires
        p <= input@.len(),
        eol <= input@.len(),
    ensures
        match node_prop_at(input@, p as int, eol as int) {
            Option::Some(kv) => r matches Some(np) && np.key@ == kv.0 && np.value@ == kv.1,
            Option::None => r is None,
        },
{
    let ghost s = input@;
    let w = skip_sp(input, p, eol);
    if w >= eol {
        return None;
    }
    if input[w] != 58 {
        return None;
    }
    let k = skip_key(input, w + 1, eol);
    proof {
        lemma_scan_while(s, w + 1, eol as int, key_pred());
    }
    if !(k > w + 1) {
        return None;
    }
    if !(k < eol) {
        return None;
    }
    if input[k] != 58 {
        return None;
    }
    let c = k + 1;
    let rest_sp = skip_sp(input, c, eol);
    if !(c == eol || input[c] == 32 || rest_sp == eol) {
        return None;
    }
    let lo = skip_trim(input, c, eol);
    proof {
        lemma_scan_while(s, c as int, eol as int, trim_pred());
    }
    let hi = rskip_trim(input, lo, eol);
    let mut key: Vec<u8> = Vec::new();
    key.push(58);
    let mut j = w + 1;
    while j < k
        invariant
            w + 1 <= j <= k <= input@.len(),
            s == input@,
            key@ == seq![58u8] + s.subrange(w + 1, j as int).map_values(upper_fn()),
        decreases k - j,
    {
        key.push(upper_byte(input[j]));
        proof {
            assert(key@ =~= seq![58u8] + s.subrange(w + 1, j + 1).map_values(upper_fn()));
        }
        j = j + 1;
    }
    let value = copy_range(input, lo, hi);
    Some(NodePropertyData { key, value })
}

/// Parse the property drawer whose `:PROPERTIES:` line is expected at
/// `dstart`, bounded by `bound`. Yields the ordered entries and the line
/// start of the closing `:END:` line.
pub fn parse_drawer(input: &Vec<u8>, dstart: usize, bound: usize) -> (r: Option<
    (Vec<NodePropertyData>, usize),
>)
    requires
        dstart <= input@.len(),
        bound <= input@.len(),
    ensures
        (r is Some) == (drawer_at(input@, dstart as int, bound as int) is Some),
        r matches Some(pe) ==> (drawer_at(input@, dstart as int, bound as int) matches Some(d)
            && props_pairs(pe.0@) == d.props && pe.1 as int == d.end_bol && dstart < pe.1 <= bound),
{
    let ghost s = input@;
    if dstart >= bound {
        return None;
    }
    let eol0 = find_line_end(input, dstart);
    let plit = properties_vec();
    if !lit_line_match(input, dstart, eol0, &plit) {
        return None;
    }
    let elit = end_vec();
    let p0 = next_line(input, dstart);
    proof {
        lemma_next_line_start(s, dstart as int);
    }
    let mut p = p0;
    let mut props: Vec<NodePropertyData> = Vec::new();
    proof {
        assert(props_pairs(props@) =~= Seq::<(Seq<u8>, Seq<u8>)>::empty());
    }
    loop
        invariant
            dstart < p0 <= p <= input@.len(),
            dstart < bound <= input@.len(),
            s == input@,
            elit@ == end_lit(),
            lit_line_at(s, dstart as int, line_end(s, dstart as int), properties_lit()),
            p0 as int == next_line_start(s, dstart as int),
            drawer_scan(s, p as int, bound as int, props_pairs(props@)) == drawer_scan(
                s,
                p0 as int,
                bound as int,
                Seq::empty(),
            ),
        decreases input@.len() + 1 - p,
    {
        if p >= bound {
            proof {
                assert(drawer_scan(s, p as int, bound as int, props_pairs(props@)) is None);
            }
            return None;
        }
        let eol = find_line_end(input, p);
        if lit_line_match(input, p, eol, &elit) {
            proof {
                assert(drawer_scan(s, p as int, bound as int, props_pairs(props@)) matches Some(
                    pe,
                ) && pe.0 == props_pairs(props@) && pe.1 == p as int);
            }
            return Some((props, p));
        }
        let np = parse_node_prop(input, p, eol);
        match np {
            Some(entry) => {
                let ghost before = props_pairs(props@);
                props.push(entry);
                proof {
                    assert(props_pairs(props@) =~= before.push(
                        (props@.last().key@, props@.last().value@),
                    ));
                }
            },
            None => {},
        }
        let pn = next_line(input, p);
        proof {
            lemma_next_line_start(s, p as int);
        }
        p = pn;
    }
}

/// Where the drawer element ends: after its `:END:` line, past any blank
/// lines, at the next line start holding content (or at `limit`).
pub open spec fn drawer_node_end(s: Seq<u8>, eb: int, limit: int) -> int {
    let e0 = next_line_start(s, eb);
    let w2 = scan_while(s, e0, limit, blank_pred());
    if w2 >= limit {
        limit
    } else {
        bol(s, w2)
    }
}

/// Relation between a drawer syntax node and the drawer found at `pos`.
pub open spec fn drawer_node_matches(
    s: Seq<u8>,
    pos: int,
    limit: int,
    node: SyntaxNode<PropertyDrawerData>,
) -> bool {
    drawer_at(s, pos, limit) matches Option::Some(d) && node.begin == pos && node.post_affiliated
        == pos && node.end as int == drawer_node_end(s, d.end_bol, limit) && (
    node.contents_begin matches Option::Some(v) && v as int == next_line_start(s, pos)) && (
    node.contents_end matches Option::Some(v2) && v2 as int == d.end_bol) && node.pre_blank == 0
        && node.post_blank as int == count_lines(
        s,
        next_line_start(s, d.end_bol),
        drawer_node_end(s, d.end_bol, limit),
    ) && props_pairs(node.data.properties@) == d.props
}

/// Parse the property drawer at `pos` into a syntax node: offsets, the
/// blank-line count after its closing line, and the ordered entries.
pub fn drawer_node(input: &Vec<u8>, pos: usize, limit: usize) -> (r: Option<
    SyntaxNode<PropertyDrawerData>,
>)
    requires
        pos <= limit,
        limit <= input@.len(),
    ensures
        (r is Some) == (drawer_at(input@, pos as int, limit as int) is Some),
        r matches Some(node) ==> drawer_node_matches(input@, pos as int, limit as int, node),
{
    let ghost s = input@;
    let n = input.len();
    match parse_drawer(input, pos, limit) {
        Some(pr) => {
            let props = pr.0;
            let eb = pr.1;
            let e0 = next_line(input, eb);
            let w2 = skip_blank(input, e0, limit);
            let dend = if w2 >= limit {
                limit
            } else {
                find_bol(input, w2)
            };
            let cnt = count_newlines(input, e0, dend);
            let post = if dend > e0 && input[dend - 1] != 10 {
                cnt + 1
            } else {
                cnt
            };
            proof {
                assert(post as int == count_lines(s, e0 as int, dend as int));
            }
            let cb = next_line(input, pos);
            Some(
                SyntaxNode {
                    begin: pos,
                    end: dend,
                    contents_begin: Some(cb),
                    contents_end: Some(eb),
                    pre_blank: 0,
                    post_blank: post,
                    post_affiliated: pos,
                    data: PropertyDrawerData { properties: props },
                },
            )
        },
        None => None,
    }
}

/// Parse the single node-property line at `pos` into a syntax node, bounded
/// by `limit`; a malformed line yields nothing.
pub fn node_prop_node(input: &Vec<u8>, pos: usize, limit: usize) -> (r: Option<
    SyntaxNode<NodePropertyData>,
>)
    requires
        pos <= limit,
        limit <= input@.len(),
    ensures
        ({
            let s = input@;
            let eol = if line_end(s, pos as int) < limit as int {
                line_end(s, pos as int)
            } else {
                limit as int
            };
            match node_prop_at(s, pos as int, eol) {
                Option::Some(kv) => r matches Some(node) && node.begin == pos
                    && node.post_affiliated == pos && node.contents_begin is None
                    && node.contents_end is None && node.pre_blank == 0 && node.post_blank == 0
                    && node.data.key@ == kv.0 && node.data.value@ == kv.1 && node.end as int == (
                if next_line_start(s, pos as int) < limit as int {
                    next_line_start(s, pos as int)
                } else {
                    limit as int
                }),
                Option::None => r is None,
            }
        }),
{
    let eol0 = find_line_end(input, pos);
    let eol = if eol0 < limit {
        eol0
    } else {
        limit
    };
    match parse_node_prop(input, pos, eol) {
        Some(np) => {
            let nl = next_line(input, pos);
            let e = if nl < limit {
                nl
            } else {
                limit
            };
            Some(
                SyntaxNode {
                    begin: pos,
                    end: e,
                    contents_begin: None,
                    contents_end: None,
                    pre_blank: 0,
                    post_blank: 0,
                    post_affiliated: pos,
                    data: np,
                },
            )
        },
        None => None,
    }
}

} // verus!
