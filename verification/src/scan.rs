//! Byte-level scanning primitives: character classes, bounded forward and
//! backward skips over a byte class, line-end lookup and newline counting.
//! Every scanner is specified against a small recursive spec function, so the
//! higher-level parsers can state their contracts purely over `Seq<u8>`.

use vstd::prelude::*;

verus! {

/// Horizontal whitespace: space or tab.
pub open spec fn is_sp(c: u8) -> bool {
    c == 32 || c == 9
}

/// Blank-class byte: space, tab, carriage return or newline.
pub open spec fn is_blank(c: u8) -> bool {
    c == 32 || c == 9 || c == 13 || c == 10
}

/// Byte trimmed from the ends of a line span: space, tab or carriage return.
pub open spec fn is_trim(c: u8) -> bool {
    c == 32 || c == 9 || c == 13
}

/// Byte allowed inside a tag word: ASCII alphanumeric, `_`, `@`, `#` or `%`.
pub open spec fn is_tag_byte(c: u8) -> bool {
    (48 <= c && c <= 57) || (65 <= c && c <= 90) || (97 <= c && c <= 122) || c == 95 || c == 64
        || c == 35 || c == 37
}

/// ASCII upper-casing of one byte.
pub open spec fn to_upper(c: u8) -> u8 {
    if 97 <= c && c <= 122 {
        (c - 32) as u8
    } else {
        c
    }
}

/// ASCII lower-casing of one byte.
pub open spec fn to_lower(c: u8) -> u8 {
    if 65 <= c && c <= 90 {
        (c + 32) as u8
    } else {
        c
    }
}

pub open spec fn sp_pred() -> spec_fn(u8) -> bool {
    |c: u8| is_sp(c)
}

pub open spec fn blank_pred() -> spec_fn(u8) -> bool {
    |c: u8| is_blank(c)
}

pub open spec fn trim_pred() -> spec_fn(u8) -> bool {
    |c: u8| is_trim(c)
}

pub open spec fn non_sp_pred() -> spec_fn(u8) -> bool {
    |c: u8| !is_sp(c)
}

pub open spec fn star_pred() -> spec_fn(u8) -> bool {
    |c: u8| c == 42
}

pub open spec fn tag_run_pred() -> spec_fn(u8) -> bool {
    |c: u8| is_tag_byte(c) || c == 58
}

/// All bytes other than `t`; scanning while it holds finds the first `t`.
pub open spec fn non_byte_pred(t: u8) -> spec_fn(u8) -> bool {
    |c: u8| c != t
}

/// First position at or after `i` (bounded by `b` and the buffer end) whose
/// byte does not satisfy `p`; the scan stops early at `b` or the buffer end.
pub open spec fn scan_while(s: Seq<u8>, i: int, b: int, p: spec_fn(u8) -> bool) -> int
    decreases s.len() - i,
{
    if i < b && 0 <= i && i < s.len() && p(s[i]) {
        scan_while(s, i + 1, b, p)
    } else {
        i
    }
}

/// First position at or below `j` (bounded below by `lo`) such that the byte
/// just before it does not satisfy `p`.
pub open spec fn rscan_while(s: Seq<u8>, lo: int, j: int, p: spec_fn(u8) -> bool) -> int
    decreases j - lo,
{
    if lo < j && 0 < j && j <= s.len() && p(s[j - 1]) {
        rscan_while(s, lo, j - 1, p)
    } else {
        j
    }
}

/// Position just past the last byte of the line holding `i`: the first
/// newline at or after `i`, or the buffer end.
pub open spec fn line_end(s: Seq<u8>, i: int) -> int {
    scan_while(s, i, s.len() as int, non_byte_pred(10))
}

/// Start of the line after the one holding `i`: one past its newline, or the
/// buffer end when the last line has no trailing newline.
pub open spec fn next_line_start(s: Seq<u8>, i: int) -> int {
    if line_end(s, i) < s.len() {
        line_end(s, i) + 1
    } else {
        s.len() as int
    }
}

/// Start of the line holding `q`: the position after the previous newline,
/// or the buffer start.
pub open spec fn bol(s: Seq<u8>, q: int) -> int {
    rscan_while(s, 0, q, non_byte_pred(10))
}

/// Number of newline bytes in `[a, b)`, clipped to the buffer.
pub open spec fn count_nl(s: Seq<u8>, a: int, b: int) -> int
    decreases b - a,
{
    if a < b && 0 <= a && a < s.len() {
        (if s[a] == 10 {
            1int
        } else {
            0int
        }) + count_nl(s, a + 1, b)
    } else {
        0
    }
}

/// Number of lines meeting `[a, b)`: the newlines in it, plus one when the
/// range ends inside a line (its last byte is not a newline).
pub open spec fn count_lines(s: Seq<u8>, a: int, b: int) -> int {
    count_nl(s, a, b) + if a < b && b - 1 < s.len() && s[b - 1] != 10 {
        1int
    } else {
        0int
    }
}

pub proof fn lemma_scan_while(s: Seq<u8>, i: int, b: int, p: spec_fn(u8) -> bool)
    requires
        0 <= i <= s.len(),
    ensures
        i <= scan_while(s, i, b, p) <= s.len(),
        scan_while(s, i, b, p) <= b || scan_while(s, i, b, p) == i,
        forall|j: int| i <= j < scan_while(s, i, b, p) ==> p(s[j]),
        !(scan_while(s, i, b, p) < b && scan_while(s, i, b, p) < s.len() && p(
            s[scan_while(s, i, b, p)],
        )),
    decreases s.len() - i,
{
    if i < b && i < s.len() && p(s[i]) {
        lemma_scan_while(s, i + 1, b, p);
    }
}

pub proof fn lemma_rscan_while(s: Seq<u8>, lo: int, j: int, p: spec_fn(u8) -> bool)
    requires
        0 <= lo <= j <= s.len(),
    ensures
        lo <= rscan_while(s, lo, j, p) <= j,
        forall|k: int| rscan_while(s, lo, j, p) <= k < j ==> p(s[k]),
        !(lo < rscan_while(s, lo, j, p) && p(s[rscan_while(s, lo, j, p) - 1])),
    decreases j - lo,
{
    if lo < j && p(s[j - 1]) {
        lemma_rscan_while(s, lo, j - 1, p);
    }
}

pub proof fn lemma_count_nl(s: Seq<u8>, a: int, b: int)
    requires
        0 <= a,
    ensures
        0 <= count_nl(s, a, b),
        (count_nl(s, a, b) == 0) == (forall|j: int| a <= j < b && j < s.len() ==> s[j] != 10),
    decreases b - a,
{
    if a < b && a < s.len() {
        lemma_count_nl(s, a + 1, b);
    }
}

/// A line start is never inside the buffer's line span: `next_line_start`
/// strictly advances while the position is inside the buffer.
pub proof fn lemma_next_line_start(s: Seq<u8>, i: int)
    requires
        0 <= i <= s.len(),
    ensures
        i <= line_end(s, i) <= s.len(),
        line_end(s, i) <= next_line_start(s, i) <= s.len(),
        i < s.len() ==> i < next_line_start(s, i),
        forall|j: int| i <= j < line_end(s, i) ==> s[j] != 10,
        line_end(s, i) < s.len() ==> s[line_end(s, i)] == 10,
{
    lemma_scan_while(s, i, s.len() as int, non_byte_pred(10));
    assert(forall|j: int|
        i <= j < line_end(s, i) ==> (non_byte_pred(10))(s[j]) && s[j] != 10);
    if line_end(s, i) < s.len() {
        assert(!((non_byte_pred(10))(s[line_end(s, i)])));
    }
}

/// Forward skip over asterisk bytes, bounded by `bound` and the buffer end.
pub fn skip_stars(input: &Vec<u8>, i: usize, bound: usize) -> (r: usize)
    requires
        i <= input@.len(),
    ensures
        r as int == scan_while(input@, i as int, bound as int, star_pred()),
        i <= r <= input@.len(),
{
    let mut j = i;
    while j < bound && j < input.len() && input[j] == 42
        invariant
            i <= j <= input@.len(),
            scan_while(input@, j as int, bound as int, star_pred()) == scan_while(
                input@,
                i as int,
                bound as int,
                star_pred(),
            ),
        decreases input@.len() - j,
    {
        j = j + 1;
    }
    proof {
        lemma_scan_while(input@, j as int, bound as int, star_pred());
    }
    j
}

/// Forward skip over spaces and tabs, bounded by `bound` and the buffer end.
pub fn skip_sp(input: &Vec<u8>, i: usize, bound: usize) -> (r: usize)
    requires
        i <= input@.len(),
    ensures
        r as int == scan_while(input@, i as int, bound as int, sp_pred()),
        i <= r <= input@.len(),
{
    let mut j = i;
    while j < bound && j < input.len() && (input[j] == 32 || input[j] == 9)
        invariant
            i <= j <= input@.len(),
            scan_while(input@, j as int, bound as int, sp_pred()) == scan_while(
                input@,
                i as int,
                bound as int,
                sp_pred(),
            ),
        decreases input@.len() - j,
    {
        j = j + 1;
    }
    proof {
        lemma_scan_while(input@, j as int, bound as int, sp_pred());
    }
    j
}

/// Forward skip over spaces, tabs and carriage returns.
pub fn skip_trim(input: &Vec<u8>, i: usize, bound: usize) -> (r: usize)
    requires
        i <= input@.len(),
    ensures
        r as int == scan_while(input@, i as int, bound as int, trim_pred()),
        i <= r <= input@.len(),
{
    let mut j = i;
    while j < bound && j < input.len() && (input[j] == 32 || input[j] == 9 || input[j] == 13)
        invariant
            i <= j <= input@.len(),
            scan_while(input@, j as int, bound as int, trim_pred()) == scan_while(
                input@,
                i as int,
                bound as int,
                trim_pred(),
            ),
        decreases input@.len() - j,
    {
        j = j + 1;
    }
    proof {
        lemma_scan_while(input@, j as int, bound as int, trim_pred());
    }
    j
}

/// Forward skip over blank-class bytes (space, tab, carriage return, newline).
pub fn skip_blank(input: &Vec<u8>, i: usize, bound: usize) -> (r: usize)
    requires
        i <= input@.len(),
    ensures
        r as int == scan_while(input@, i as int, bound as int, blank_pred()),
        i <= r <= input@.len(),
{
    let mut j = i;
    while j < bound && j < input.len() && (input[j] == 32 || input[j] == 9 || input[j] == 13
        || input[j] == 10)
        invariant
            i <= j <= input@.len(),
            scan_while(input@, j as int, bound as int, blank_pred()) == scan_while(
                input@,
                i as int,
                bound as int,
                blank_pred(),
            ),
        decreases input@.len() - j,
    {
        j = j + 1;
    }
    proof {
        lemma_scan_while(input@, j as int, bound as int, blank_pred());
    }
    j
}

/// Forward skip over bytes that are not horizontal whitespace.
pub fn skip_non_sp(input: &Vec<u8>, i: usize, bound: usize) -> (r: usize)
    requires
        i <= input@.len(),
    ensures
        r as int == scan_while(input@, i as int, bound as int, non_sp_pred()),
        i <= r <= input@.len(),
{
    let mut j = i;
    while j < bound && j < input.len() && !(input[j] == 32 || input[j] == 9)
        invariant
            i <= j <= input@.len(),
            scan_while(input@, j as int, bound as int, non_sp_pred()) == scan_while(
                input@,
                i as int,
                bound as int,
                non_sp_pred(),
            ),
        decreases input@.len() - j,
    {
        j = j + 1;
    }
    proof {
        lemma_scan_while(input@, j as int, bound as int, non_sp_pred());
    }
    j
}

/// Position of the first occurrence of byte `t` in `[i, bound)`, or the
/// smaller of `bound` and the buffer end when there is none.
pub fn find_byte(input: &Vec<u8>, i: usize, bound: usize, t: u8) -> (r: usize)
    requires
        i <= input@.len(),
    ensures
        r as int == scan_while(input@, i as int, bound as int, non_byte_pred(t)),
        i <= r <= input@.len(),
{
    let mut j = i;
    while j < bound && j < input.len() && input[j] != t
        invariant
            i <= j <= input@.len(),
            scan_while(input@, j as int, bound as int, non_byte_pred(t)) == scan_while(
                input@,
                i as int,
                bound as int,
                non_byte_pred(t),
            ),
        decreases input@.len() - j,
    {
        j = j + 1;
    }
    proof {
        lemma_scan_while(input@, j as int, bound as int, non_byte_pred(t));
    }
    j
}

/// Position just past the last byte of the line holding `i`.
pub fn find_line_end(input: &Vec<u8>, i: usize) -> (r: usize)
    requires
        i <= input@.len(),
    ensures
        r as int == line_end(input@, i as int),
        i <= r <= input@.len(),
{
    let n = input.len();
    find_byte(input, i, n, 10)
}

/// Start of the line after the one holding `i`.
pub fn next_line(input: &Vec<u8>, i: usize) -> (r: usize)
    requires
        i <= input@.len(),
    ensures
        r as int == next_line_start(input@, i as int),
        i <= r <= input@.len(),
{
    let e = find_line_end(input, i);
    if e < input.len() {
        e + 1
    } else {
        e
    }
}

/// Start of the line holding `q`.
pub fn find_bol(input: &Vec<u8>, q: usize) -> (r: usize)
    requires
        q <= input@.len(),
    ensures
        r as int == bol(input@, q as int),
        r <= q,
{
    let mut j = q;
    while j > 0 && input[j - 1] != 10
        invariant
            j <= q <= input@.len(),
            rscan_while(input@, 0, j as int, non_byte_pred(10)) == rscan_while(
                input@,
                0,
                q as int,
                non_byte_pred(10),
            ),
        decreases j,
    {
        j = j - 1;
    }
    j
}

/// Backward skip over blank-class bytes, bounded below by `lo`.
pub fn rskip_blank(input: &Vec<u8>, lo: usize, j: usize) -> (r: usize)
    requires
        lo <= j <= input@.len(),
    ensures
        r as int == rscan_while(input@, lo as int, j as int, blank_pred()),
        lo <= r <= j,
{
    let mut k = j;
    while k > lo && (input[k - 1] == 32 || input[k - 1] == 9 || input[k - 1] == 13 || input[k - 1]
        == 10)
        invariant
            lo <= k <= j <= input@.len(),
            rscan_while(input@, lo as int, k as int, blank_pred()) == rscan_while(
                input@,
                lo as int,
                j as int,
                blank_pred(),
            ),
        decreases k,
    {
        k = k - 1;
    }
    k
}

/// Backward skip over spaces, tabs and carriage returns, bounded below by `lo`.
pub fn rskip_trim(input: &Vec<u8>, lo: usize, j: usize) -> (r: usize)
    requires
        lo <= j <= input@.len(),
    ensures
        r as int == rscan_while(input@, lo as int, j as int, trim_pred()),
        lo <= r <= j,
{
    let mut k = j;
    while k > lo && (input[k - 1] == 32 || input[k - 1] == 9 || input[k - 1] == 13)
        invariant
            lo <= k <= j <= input@.len(),
            rscan_while(input@, lo as int, k as int, trim_pred()) == rscan_while(
                input@,
                lo as int,
                j as int,
                trim_pred(),
            ),
        decreases k,
    {
        k = k - 1;
    }
    k
}

/// Number of newline bytes in `[a, b)`.
pub fn count_newlines(input: &Vec<u8>, a: usize, b: usize) -> (r: usize)
    requires
        a <= input@.len(),
    ensures
        r as int == count_nl(input@, a as int, b as int),
        a <= b ==> r as int <= b - a,
{
    let mut j = a;
    let mut r: usize = 0;
    while j < b && j < input.len()
        invariant
            a <= j <= input@.len(),
            a <= b ==> j <= b,
            r <= j - a,
            r + count_nl(input@, j as int, b as int) == count_nl(input@, a as int, b as int),
        decreases input@.len() - j,
    {
        if input[j] == 10 {
            r = r + 1;
        }
        j = j + 1;
    }
    r
}

/// Copy of the bytes in `[a, b)` as an owned vector.
pub fn copy_range(input: &Vec<u8>, a: usize, b: usize) -> (r: Vec<u8>)
    requires
        a <= b <= input@.len(),
    ensures
        r@ == input@.subrange(a as int, b as int),
{
    let mut r: Vec<u8> = Vec::new();
    let mut j = a;
    while j < b
        invariant
            a <= j <= b <= input@.len(),
            r@ == input@.subrange(a as int, j as int),
        decreases b - j,
    {
        r.push(input[j]);
        proof {
            assert(r@ =~= input@.subrange(a as int, j + 1));
        }
        j = j + 1;
    }
    r
}

/// Whether the bytes of `w` occur verbatim at position `i` of `input`.
pub fn match_bytes(input: &Vec<u8>, i: usize, w: &Vec<u8>) -> (b: bool)
    requires
        i <= input@.len(),
    ensures
        b == (i + w@.len() <= input@.len() && input@.subrange(i as int, i + w@.len()) == w@),
{
    if input.len() - i < w.len() {
        return false;
    }
    let mut k: usize = 0;
    while k < w.len()
        invariant
            k <= w@.len(),
            i + w@.len() <= input@.len() <= usize::MAX,
            forall|m: int| 0 <= m < k ==> input@[i + m] == w@[m],
        decreases w@.len() - k,
    {
        if input[i + k] != w[k] {
            proof {
                assert(input@.subrange(i as int, i + w@.len())[k as int] == input@[i + k]);
            }
            return false;
        }
        k = k + 1;
    }
    proof {
        assert(input@.subrange(i as int, i + w@.len()) =~= w@);
    }
    true
}

/// Whether two byte vectors hold the same bytes.
pub fn bytes_eq(v: &Vec<u8>, w: &Vec<u8>) -> (b: bool)
    ensures
        b == (v@ == w@),
{
    if v.len() != w.len() {
        return false;
    }
    let r = match_bytes(v, 0, w);
    proof {
        assert(v@.subrange(0, v@.len() as int) =~= v@);
    }
    r
}

} // verus!
