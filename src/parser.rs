//! Reading a blueprint: section location, the content heuristic, the task
//! list grammar, and the composed parse.
use crate::blueprint::{opt_view, tasks_view, Blueprint, TaskItem, TaskQueue, TaskSpec, TaskStatus};
use std::path::PathBuf;
use crate::text::{
    chars_of, contains, contains_chars, is_ws, line_spans, lower_of, lowercase, push_range,
    push_str, skip_ws, slice_chars, span_int, spans_from, spans_int, spans_ok, split_lines,
    starts_at,
    starts_with_at, string_of, trim_lo, trim_range, trimmed,
};
use vstd::prelude::*;
use vstd::utf8::encode_utf8;

verus! {

/// Number of `#` characters at the start of `s[a..b]`.
pub open spec fn hash_run(s: Seq<char>, a: int, b: int) -> int
    decreases b - a,
{
    if a < b && s[a] == '#' {
        1 + hash_run(s, a + 1, b)
    } else {
        0
    }
}

/// The line, once trimmed, starts with a heading marker.
pub open spec fn is_heading(s: Seq<char>, sp: (int, int, int)) -> bool {
    let t = trimmed(s, sp.0, sp.1);
    t.0 < t.1 && s[t.0] == '#'
}

/// Heading level: the number of leading markers of the trimmed line.
pub open spec fn level(s: Seq<char>, sp: (int, int, int)) -> int {
    let t = trimmed(s, sp.0, sp.1);
    hash_run(s, t.0, t.1)
}

/// The line is a heading whose lowercased trimmed text contains `tl`.
pub open spec fn heading_hit(s: Seq<char>, sp: (int, int, int), tl: Seq<char>) -> bool {
    let t = trimmed(s, sp.0, sp.1);
    is_heading(s, sp) && contains(lower_of(s.subrange(t.0, t.1)), tl)
}

/// Index of the first line from `k` on that is a matching heading, or the
/// number of lines.
pub open spec fn first_hit(s: Seq<char>, sps: Seq<(int, int, int)>, tl: Seq<char>, k: int) -> int
    decreases sps.len() - k,
{
    if k >= sps.len() {
        sps.len() as int
    } else if heading_hit(s, sps[k], tl) {
        k
    } else {
        first_hit(s, sps, tl, k + 1)
    }
}

/// Index of the first line from `k` on that is a heading of level at most
/// `lvl`, or the number of lines.
pub open spec fn end_line(s: Seq<char>, sps: Seq<(int, int, int)>, lvl: int, k: int) -> int
    decreases sps.len() - k,
{
    if k >= sps.len() {
        sps.len() as int
    } else if is_heading(s, sps[k]) && level(s, sps[k]) <= lvl {
        k
    } else {
        end_line(s, sps, lvl, k + 1)
    }
}

/// The body of the section whose heading contains `tl` (already lowercased):
/// from the line after the first matching heading to the next heading of the
/// same or a higher level, or to the end. Indices are character positions.
pub open spec fn section_of(s: Seq<char>, tl: Seq<char>) -> Option<(int, int)> {
    let sps = line_spans(s);
    let h = first_hit(s, sps, tl, 0);
    if h >= sps.len() {
        None
    } else {
        let e = end_line(s, sps, level(s, sps[h]), h + 1);
        Some((sps[h].2, if e < sps.len() { sps[e].0 } else { s.len() as int }))
    }
}

pub open spec fn range_int(r: Option<(usize, usize)>) -> Option<(int, int)> {
    match r {
        Some(p) => Some((p.0 as int, p.1 as int)),
        None => None,
    }
}

fn count_hashes(s: &Vec<char>, a: usize, b: usize) -> (r: usize)
    requires
        a <= b <= s@.len(),
    ensures
        r == hash_run(s@, a as int, b as int),
{
    let mut i: usize = a;
    while i < b && s[i] == '#'
        invariant
            a <= i <= b <= s@.len(),
            hash_run(s@, a as int, b as int) == (i - a) + hash_run(s@, i as int, b as int),
        decreases b - i,
    {
        i = i + 1;
    }
    i - a
}

/// Locates the section body under the first heading containing `tl`, which
/// is already lowercased.
pub(crate) fn locate(s: &Vec<char>, tl: &Vec<char>) -> (r: Option<(usize, usize)>)
    ensures
        range_int(r) == section_of(s@, tl@),
        r matches Some(p) ==> p.0 <= p.1 <= s@.len(),
{
    let sps = split_lines(s);
    let ghost g = line_spans(s@);
    let n = sps.len();
    assert(n == g.len()) by {
        assert(spans_int(sps@).len() == sps@.len());
    }
    let mut h: usize = 0;
    let mut found = false;
    while h < n && !found
        invariant
            n == sps@.len() == g.len(),
            g == spans_int(sps@),
            g == line_spans(s@),
            spans_ok(sps@, s@.len() as int),
            h <= n,
            first_hit(s@, g, tl@, h as int) == first_hit(s@, g, tl@, 0),
            found ==> h < n && first_hit(s@, g, tl@, 0) == h,
        decreases n - h + (if found { 0int } else { 1 }),
    {
        let sp = sps[h];
        assert(g[h as int] == span_int(sp));
        assert(sp.0 <= sp.1 <= s@.len()) by {
            assert(sps@[h as int] == sp);
        }
        let t = trim_range(s, sp.0, sp.1);
        let line = slice_chars(s, t.0, t.1);
        let low = lowercase(&line);
        let hit = t.0 < t.1 && s[t.0] == '#' && contains_chars(&low, tl);
        if hit {
            found = true;
        } else {
            h = h + 1;
        }
    }
    if !found {
        return None;
    }
    let hs = sps[h];
    assert(g[h as int] == span_int(hs)) by {
        assert(sps@[h as int] == hs);
    }
    assert(hs.2 <= s@.len()) by {
        assert(sps@[h as int] == hs);
    }
    let ht = trim_range(s, hs.0, hs.1);
    let lvl = count_hashes(s, ht.0, ht.1);
    let mut e: usize = h + 1;
    let mut stop = false;
    while e < n && !stop
        invariant
            n == sps@.len() == g.len(),
            g == spans_int(sps@),
            spans_ok(sps@, s@.len() as int),
            h < e <= n,
            end_line(s@, g, lvl as int, e as int) == end_line(s@, g, lvl as int, h + 1),
            stop ==> e < n && end_line(s@, g, lvl as int, h + 1) == e,
        decreases n - e + (if stop { 0int } else { 1 }),
    {
        let sp = sps[e];
        assert(g[e as int] == span_int(sp));
        assert(sp.0 <= sp.1 <= s@.len()) by {
            assert(sps@[e as int] == sp);
        }
        let t = trim_range(s, sp.0, sp.1);
        if t.0 < t.1 && s[t.0] == '#' {
            let l = count_hashes(s, t.0, t.1);
            if l <= lvl {
                stop = true;
            }
        }
        if !stop {
            e = e + 1;
        }
    }
    let end = if e < n {
        let es = sps[e];
        assert(g[e as int] == span_int(es));
        assert(hs.2 <= es.0) by {
            assert(sps@[h as int] == hs);
            assert(sps@[e as int] == es);
        }
        es.0
    } else {
        s.len()
    };
    Some((hs.2, end))
}


/// Byte position in the UTF-8 encoding of `s` of its character position `i`.
pub open spec fn byte_pos(s: Seq<char>, i: int) -> int {
    encode_utf8(s.subrange(0, i)).len() as int
}

pub open spec fn byte_range(s: Seq<char>, r: Option<(int, int)>) -> Option<(int, int)> {
    match r {
        Some(p) => Some((byte_pos(s, p.0), byte_pos(s, p.1))),
        None => None,
    }
}

proof fn lemma_encode_concat(a: Seq<char>, b: Seq<char>)
    ensures
        encode_utf8(a + b) == encode_utf8(a) + encode_utf8(b),
    decreases a.len(),
{
    if a.len() == 0 {
        assert(a + b =~= b);
        assert(encode_utf8(a) + encode_utf8(b) =~= encode_utf8(b));
    } else {
        assert((a + b).drop_first() =~= a.drop_first() + b);
        lemma_encode_concat(a.drop_first(), b);
        assert(encode_utf8(a + b) =~= encode_utf8(a) + encode_utf8(b));
    }
}

/// Number of bytes of the UTF-8 encoding of `c`.
fn utf8_width(c: char) -> (w: usize)
    ensures
        w == encode_utf8(seq![c]).len(),
{
    proof {
        vstd::utf8::char_is_scalar(c);
        assert(seq![c].drop_first() =~= Seq::<char>::empty());
        assert(seq![c][0] == c);
        assert(encode_utf8(Seq::<char>::empty()) =~= Seq::<u8>::empty());
        assert(encode_utf8(seq![c]) == vstd::utf8::encode_scalar(c as u32) + encode_utf8(
            seq![c].drop_first(),
        ));
        assert(encode_utf8(seq![c]) =~= vstd::utf8::encode_scalar(c as u32));
    }
    let v = c as u32;
    if v <= 0x7f {
        1
    } else if v <= 0x7ff {
        2
    } else if v <= 0xffff {
        3
    } else {
        4
    }
}

/// Byte position of character position `i`, given the byte length of the whole.
fn byte_offset(s: &Vec<char>, i: usize, total: usize) -> (r: usize)
    requires
        i <= s@.len(),
        total == encode_utf8(s@).len(),
    ensures
        r == byte_pos(s@, i as int),
{
    let mut k: usize = 0;
    let mut acc: usize = 0;
    while k < i
        invariant
            k <= i <= s@.len(),
            total == encode_utf8(s@).len(),
            acc == byte_pos(s@, k as int),
        decreases i - k,
    {
        proof {
            lemma_encode_concat(s@.subrange(0, k as int), seq![s@[k as int]]);
            assert(s@.subrange(0, k as int) + seq![s@[k as int]] =~= s@.subrange(0, k + 1));
            lemma_encode_concat(s@.subrange(0, k + 1), s@.subrange(k + 1, s@.len() as int));
            assert(s@.subrange(0, k + 1) + s@.subrange(k + 1, s@.len() as int) =~= s@);
        }
        acc = acc + utf8_width(s[k]);
        k = k + 1;
    }
    acc
}

/// Finds the body of the section whose heading contains `heading`, ignoring
/// case: the first line that starts with `#` once trimmed and holds the text
/// is the heading; the body runs from the next line to the next heading of the
/// same or a higher level, or to the end. The result is a half-open byte range.
pub fn find_section(content: &str, heading: &str) -> (r: Option<(usize, usize)>)
    ensures
        range_int(r) == byte_range(content@, section_of(content@, lower_of(heading@))),
{
    let cs = chars_of(content);
    let hc = chars_of(heading);
    let tl = lowercase(&hc);
    let total = content.as_bytes().len();
    match locate(&cs, &tl) {
        None => None,
        Some(p) => {
            let a = byte_offset(&cs, p.0, total);
            let b = byte_offset(&cs, p.1, total);
            Some((a, b))
        },
    }
}

pub const MARKER_COUNT: usize = 10;

/// The markers of placeholder text left from the template.
pub open spec fn marker(i: int) -> Seq<char> {
    if i == 0 {
        "[name]"@
    } else if i == 1 {
        "[what it does]"@
    } else if i == 2 {
        "[actor"@
    } else if i == 3 {
        "[action]"@
    } else if i == 4 {
        "[hard part"@
    } else if i == 5 {
        "[non-goal"@
    } else if i == 6 {
        "[field"@
    } else if i == 7 {
        "[method"@
    } else if i == 8 {
        "replace with your diagram"@
    } else {
        "TODO"@
    }
}

fn marker_at(i: usize) -> (r: &'static str)
    ensures
        r@ == marker(i as int),
{
    if i == 0 {
        "[name]"
    } else if i == 1 {
        "[what it does]"
    } else if i == 2 {
        "[actor"
    } else if i == 3 {
        "[action]"
    } else if i == 4 {
        "[hard part"
    } else if i == 5 {
        "[non-goal"
    } else if i == 6 {
        "[field"
    } else if i == 7 {
        "[method"
    } else if i == 8 {
        "replace with your diagram"
    } else {
        "TODO"
    }
}

/// Some marker, lowercased, occurs in the lowercased line `low`.
pub open spec fn is_placeholder(low: Seq<char>) -> bool {
    exists|i: int| 0 <= i < MARKER_COUNT && #[trigger] contains(low, lower_of(marker(i)))
}

/// A trimmed line `s[t.0..t.1]` that the heuristic passes over: empty, a
/// comment delimiter, a table row, or a separator row.
pub open spec fn is_skippable(s: Seq<char>, t: (int, int)) -> bool {
    ||| t.0 >= t.1
    ||| starts_at(s, t.0, t.1, "<!--"@)
    ||| starts_at(s, t.0, t.1, "-->"@)
    ||| starts_at(s, t.0, t.1, "|"@)
    ||| (starts_at(s, t.0, t.1, "-"@) && forall|k: int|
        t.0 <= k < t.1 ==> #[trigger] s[k] == '-' || s[k] == ' ' || s[k] == '|')
}

/// The line is real content: not skippable and free of placeholder markers.
pub open spec fn is_real_line(s: Seq<char>, sp: (int, int, int)) -> bool {
    let t = trimmed(s, sp.0, sp.1);
    !is_skippable(s, t) && !is_placeholder(lower_of(s.subrange(t.0, t.1)))
}

/// Some line of the section is real content.
pub open spec fn has_content(sec: Seq<char>) -> bool {
    let sps = line_spans(sec);
    exists|k: int| 0 <= k < sps.len() && #[trigger] is_real_line(sec, sps[k])
}

fn separator_only(s: &Vec<char>, a: usize, b: usize) -> (r: bool)
    requires
        a <= b <= s@.len(),
    ensures
        r == forall|k: int| a <= k < b ==> #[trigger] s@[k] == '-' || s@[k] == ' ' || s@[k] == '|',
{
    let mut k: usize = a;
    while k < b
        invariant
            a <= k <= b <= s@.len(),
            forall|t: int| a <= t < k ==> #[trigger] s@[t] == '-' || s@[t] == ' ' || s@[t] == '|',
        decreases b - k,
    {
        let c = s[k];
        if !(c == '-' || c == ' ' || c == '|') {
            return false;
        }
        k = k + 1;
    }
    true
}

fn placeholder_line(low: &Vec<char>) -> (r: bool)
    ensures
        r == is_placeholder(low@),
{
    let mut i: usize = 0;
    while i < MARKER_COUNT
        invariant
            i <= MARKER_COUNT,
            forall|t: int| 0 <= t < i ==> !#[trigger] contains(low@, lower_of(marker(t))),
        decreases MARKER_COUNT - i,
    {
        let m = chars_of(marker_at(i));
        let ml = lowercase(&m);
        if contains_chars(low, &ml) {
            return true;
        }
        i = i + 1;
    }
    false
}

fn real_line(s: &Vec<char>, a: usize, b: usize) -> (r: bool)
    requires
        a <= b <= s@.len(),
    ensures
        r == is_real_line(s@, (a as int, b as int, 0)),
{
    let t = trim_range(s, a, b);
    if t.0 >= t.1 || starts_with_at(s, t.0, t.1, "<!--") || starts_with_at(s, t.0, t.1, "-->")
        || starts_with_at(s, t.0, t.1, "|") || (starts_with_at(s, t.0, t.1, "-")
        && separator_only(s, t.0, t.1)) {
        return false;
    }
    let line = slice_chars(s, t.0, t.1);
    let low = lowercase(&line);
    !placeholder_line(&low)
}

fn content_in(sec: &Vec<char>) -> (r: bool)
    ensures
        r == has_content(sec@),
{
    let sps = split_lines(sec);
    let ghost g = line_spans(sec@);
    let n = sps.len();
    assert(n == g.len()) by {
        assert(spans_int(sps@).len() == sps@.len());
    }
    let mut k: usize = 0;
    while k < n
        invariant
            n == sps@.len() == g.len(),
            g == spans_int(sps@),
            g == line_spans(sec@),
            spans_ok(sps@, sec@.len() as int),
            k <= n,
            forall|t: int| 0 <= t < k ==> !#[trigger] is_real_line(sec@, g[t]),
        decreases n - k,
    {
        let sp = sps[k];
        assert(g[k as int] == span_int(sp));
        assert(sp.0 <= sp.1 <= sec@.len()) by {
            assert(sps@[k as int] == sp);
        }
        if real_line(sec, sp.0, sp.1) {
            assert(is_real_line(sec@, g[k as int]));
            return true;
        }
        k = k + 1;
    }
    false
}

/// Whether the section holds real content: some line that is not blank, a
/// comment delimiter, a table row or separator, and holds no placeholder marker.
pub fn section_has_content(section: &str) -> (r: bool)
    ensures
        r == has_content(section@),
{
    let cs = chars_of(section);
    content_in(&cs)
}

/// The section under the heading containing `tl` exists and has real content.
pub open spec fn layer_present(s: Seq<char>, tl: Seq<char>) -> bool {
    match section_of(s, tl) {
        Some(p) => has_content(s.subrange(p.0, p.1)),
        None => false,
    }
}

fn layer_in(cs: &Vec<char>, heading: &str) -> (r: bool)
    ensures
        r == layer_present(cs@, lower_of(heading@)),
{
    let hc = chars_of(heading);
    let tl = lowercase(&hc);
    match locate(cs, &tl) {
        Some(p) => {
            let sec = slice_chars(cs, p.0, p.1);
            content_in(&sec)
        },
        None => false,
    }
}

/// Whether the section under `layer_heading` exists and has real content.
pub fn check_layer(content: &str, layer_heading: &str) -> (r: bool)
    ensures
        r == layer_present(content@, lower_of(layer_heading@)),
{
    let cs = chars_of(content);
    layer_in(&cs, layer_heading)
}


proof fn lemma_first_hit(s: Seq<char>, sps: Seq<(int, int, int)>, tl: Seq<char>, k: int)
    requires
        0 <= k <= sps.len(),
    ensures
        k <= first_hit(s, sps, tl, k) <= sps.len(),
        first_hit(s, sps, tl, k) < sps.len() ==> heading_hit(s, sps[first_hit(s, sps, tl, k)], tl),
        forall|i: int| k <= i < first_hit(s, sps, tl, k) ==> !#[trigger] heading_hit(s, sps[i], tl),
    decreases sps.len() - k,
{
    if k < sps.len() && !heading_hit(s, sps[k], tl) {
        lemma_first_hit(s, sps, tl, k + 1);
    }
}

/// A section opens only under a heading line: the line before its body
/// starts with `#` once trimmed and holds the target, and no earlier line
/// does both. A line that holds the target but is no heading (a code block
/// line, say) never opens a section, wherever it stands.
pub proof fn lemma_section_opens_at_heading(s: Seq<char>, tl: Seq<char>)
    ensures
        section_of(s, tl) matches Some(r) ==> exists|h: int|
            0 <= h < line_spans(s).len() && line_spans(s)[h].2 == r.0 && is_heading(
                s,
                #[trigger] line_spans(s)[h],
            ) && heading_hit(s, line_spans(s)[h], tl) && forall|i: int|
                0 <= i < h ==> !#[trigger] heading_hit(s, line_spans(s)[i], tl),
{
    let sps = line_spans(s);
    lemma_first_hit(s, sps, tl, 0);
    let h = first_hit(s, sps, tl, 0);
    if h < sps.len() {
        assert(line_spans(s)[h].2 == section_of(s, tl).unwrap().0);
    }
}

/// A section none of whose lines is real content (every line blank, a
/// comment delimiter, a table row, a separator or a placeholder) has no
/// content.
pub proof fn lemma_placeholder_only_no_content(sec: Seq<char>)
    requires
        forall|k: int|
            0 <= k < line_spans(sec).len() ==> !#[trigger] is_real_line(sec, line_spans(sec)[k]),
    ensures
        !has_content(sec),
{
}

proof fn lemma_spans_last_line(t: Seq<char>, n0: int, j: int)
    requires
        0 <= n0 <= j <= t.len(),
        n0 < t.len(),
        forall|k: int| n0 <= k < t.len() ==> t[k] != '\n',
    ensures
        spans_from(t, n0, j) == seq![(n0, t.len() as int, t.len() as int)],
    decreases t.len() - j,
{
    if j < t.len() {
        lemma_spans_last_line(t, n0, j + 1);
    }
}

proof fn lemma_spans_end_with(t: Seq<char>, n0: int, start: int, j: int)
    requires
        0 <= start <= j <= n0 < t.len(),
        forall|k: int| start <= k < j ==> t[k] != '\n',
        forall|k: int| n0 <= k < t.len() ==> t[k] != '\n',
        n0 == 0 || t[n0 - 1] == '\n',
    ensures
        spans_from(t, start, j).len() > 0,
        spans_from(t, start, j).last() == (n0, t.len() as int, t.len() as int),
    decreases n0 - j,
{
    if j == n0 {
        if n0 > 0 && start < n0 {
            assert(t[n0 - 1] != '\n');
        }
        lemma_spans_last_line(t, n0, j);
    } else if t[j] == '\n' {
        lemma_spans_end_with(t, n0, j + 1, j + 1);
        let rest = spans_from(t, j + 1, j + 1);
        assert((seq![(start, crate::text::cut_end(t, start, j), j + 1)] + rest).last()
            == rest.last());
    } else {
        lemma_spans_end_with(t, n0, start, j + 1);
    }
}

proof fn lemma_trim_lo_shift(t: Seq<char>, l: Seq<char>, o: int, a: int, b: int)
    requires
        0 <= o,
        0 <= a <= b <= l.len(),
        o + l.len() <= t.len(),
        t.subrange(o, o + l.len()) == l,
    ensures
        trim_lo(t, o + a, o + b) == o + trim_lo(l, a, b),
    decreases b - a,
{
    if a < b {
        assert(t[o + a] == t.subrange(o, o + l.len())[a]);
        lemma_trim_lo_shift(t, l, o, a + 1, b);
    }
}

proof fn lemma_trim_hi_shift(t: Seq<char>, l: Seq<char>, o: int, a: int, b: int)
    requires
        0 <= o,
        0 <= a <= b <= l.len(),
        o + l.len() <= t.len(),
        t.subrange(o, o + l.len()) == l,
    ensures
        crate::text::trim_hi(t, o + a, o + b) == o + crate::text::trim_hi(l, a, b),
    decreases b - a,
{
    if a < b {
        assert(t[o + b - 1] == t.subrange(o, o + l.len())[b - 1]);
        lemma_trim_hi_shift(t, l, o, a, b - 1);
    }
}

proof fn lemma_real_line_shift(t: Seq<char>, l: Seq<char>, o: int)
    requires
        0 <= o,
        o + l.len() == t.len(),
        t.subrange(o, o + l.len()) == l,
        is_real_line(l, (0, l.len() as int, l.len() as int)),
    ensures
        is_real_line(t, (o, t.len() as int, t.len() as int)),
{
    let n = l.len() as int;
    lemma_trim_lo_shift(t, l, o, 0, n);
    let lo = trim_lo(l, 0, n);
    crate::text::lemma_trim_lo_bounds(l, 0, n);
    lemma_trim_hi_shift(t, l, o, lo, n);
    let hi = crate::text::trim_hi(l, lo, n);
    crate::text::lemma_trim_hi_bounds(l, lo, n);
    let tt = trimmed(t, o, o + n);
    assert(tt == (o + lo, o + hi));
    assert(t.subrange(o + lo, o + hi) =~= l.subrange(lo, hi));
    assert forall|p: Seq<char>| #[trigger] starts_at(t, o + lo, o + hi, p) == starts_at(
        l,
        lo,
        hi,
        p,
    ) by {
        if hi - lo >= p.len() {
            assert(t.subrange(o + lo, o + lo + p.len()) =~= l.subrange(lo, lo + p.len()));
        }
    }
    if forall|k: int| o + lo <= k < o + hi ==> #[trigger] t[k] == '-' || t[k] == ' ' || t[k] == '|' {
        assert forall|k: int| lo <= k < hi implies #[trigger] l[k] == '-' || l[k] == ' ' || l[k]
            == '|' by {
            assert(t[o + k] == t.subrange(o, o + n)[k]);
        }
    }
}

/// Adding one line of plain prose (real content on its own) to a section
/// gives the section content, whatever lines it held before.
pub proof fn lemma_prose_line_gives_content(sec: Seq<char>, l: Seq<char>)
    requires
        sec.len() == 0 || sec.last() == '\n',
        l.len() > 0,
        forall|k: int| 0 <= k < l.len() ==> l[k] != '\n',
        is_real_line(l, (0, l.len() as int, l.len() as int)),
    ensures
        has_content(sec + l),
{
    let t = sec + l;
    let n0 = sec.len() as int;
    assert forall|k: int| n0 <= k < t.len() implies t[k] != '\n' by {
        assert(t[k] == l[k - n0]);
    }
    if n0 > 0 {
        assert(t[n0 - 1] == sec.last());
    }
    lemma_spans_end_with(t, n0, 0, 0);
    let sps = line_spans(t);
    assert(t.subrange(n0, n0 + l.len()) =~= l);
    lemma_real_line_shift(t, l, n0);
    assert(is_real_line(t, sps[sps.len() - 1]));
}

pub const TASK_PREFIX: &'static str = "- [";
pub const CONTEXT_LABEL: &'static str = "- **Context:**";
pub const FILES_LABEL: &'static str = "- **Files:**";
pub const APPROACH_LABEL: &'static str = "- **Approach:**";
pub const DEPENDS_LABEL: &'static str = "- **Depends on:**";
pub const DEPENDS_PREFIX: &'static str = "Depends on: ";

/// A checkbox line: after leading whitespace, `- [ ]` or `- [x]`, then a
/// whitespace character and at least one more character.
pub open spec fn is_task_line(s: Seq<char>, sp: (int, int, int)) -> bool {
    let a = trim_lo(s, sp.0, sp.1);
    &&& starts_at(s, a, sp.1, TASK_PREFIX@)
    &&& sp.1 - a >= 7
    &&& (s[a + 3] == ' ' || s[a + 3] == 'x')
    &&& s[a + 4] == ']'
    &&& is_ws(s[a + 5])
}

/// Position after removing every leading `**` from `s[a..b]`.
pub open spec fn strip_lead(s: Seq<char>, a: int, b: int) -> int
    decreases b - a,
{
    if b - a >= 2 && s[a] == '*' && s[a + 1] == '*' {
        strip_lead(s, a + 2, b)
    } else {
        a
    }
}

/// End after removing every trailing `**` from `s[a..b]`.
pub open spec fn strip_trail(s: Seq<char>, a: int, b: int) -> int
    decreases b - a,
{
    if b - a >= 2 && s[b - 2] == '*' && s[b - 1] == '*' {
        strip_trail(s, a, b - 2)
    } else {
        b
    }
}

/// Metadata gathered for one task.
pub struct Meta {
    pub context: Option<Seq<char>>,
    pub files: Option<Seq<char>>,
    pub approach: Option<Seq<char>>,
}

pub open spec fn no_meta() -> Meta {
    Meta { context: None, files: None, approach: None }
}

/// The value after a label: the rest of the line, trimmed.
pub open spec fn label_value(s: Seq<char>, m: int, label: Seq<char>, b: int) -> Seq<char> {
    let t = trimmed(s, m + label.len(), b);
    s.subrange(t.0, t.1)
}

/// What one metadata line does to the gathered metadata. A "Depends on" line
/// fills the approach only while it is unset; an "Approach" line always does.
pub open spec fn apply_meta(s: Seq<char>, sp: (int, int, int), acc: Meta) -> Meta {
    let m = trim_lo(s, sp.0, sp.1);
    let b = sp.1;
    if starts_at(s, m, b, CONTEXT_LABEL@) {
        Meta { context: Some(label_value(s, m, CONTEXT_LABEL@, b)), ..acc }
    } else if starts_at(s, m, b, FILES_LABEL@) {
        Meta { files: Some(label_value(s, m, FILES_LABEL@, b)), ..acc }
    } else if starts_at(s, m, b, APPROACH_LABEL@) {
        Meta { approach: Some(label_value(s, m, APPROACH_LABEL@, b)), ..acc }
    } else if starts_at(s, m, b, DEPENDS_LABEL@) && acc.approach is None {
        Meta { approach: Some(DEPENDS_PREFIX@ + label_value(s, m, DEPENDS_LABEL@, b)), ..acc }
    } else {
        acc
    }
}

/// Metadata of lines `k..j`, applied in order.
pub open spec fn fold_meta(s: Seq<char>, sps: Seq<(int, int, int)>, k: int, j: int) -> Meta
    decreases j - k,
{
    if j <= k {
        no_meta()
    } else {
        apply_meta(s, sps[j - 1], fold_meta(s, sps, k, j - 1))
    }
}

/// The line, after leading whitespace, starts with `p`.
pub open spec fn line_starts(s: Seq<char>, sp: (int, int, int), p: Seq<char>) -> bool {
    starts_at(s, trim_lo(s, sp.0, sp.1), sp.1, p)
}

/// First line from `j` on that ends a task's metadata block: a checkbox
/// line, a heading, or a blank line followed by a checkbox line.
pub open spec fn meta_end(s: Seq<char>, sps: Seq<(int, int, int)>, j: int) -> int
    decreases sps.len() - j,
{
    if j >= sps.len() {
        sps.len() as int
    } else if line_starts(s, sps[j], TASK_PREFIX@) || line_starts(s, sps[j], "#"@) {
        j
    } else if trim_lo(s, sps[j].0, sps[j].1) >= sps[j].1 && j + 1 < sps.len() && line_starts(
        s,
        sps[j + 1],
        TASK_PREFIX@,
    ) {
        j
    } else {
        meta_end(s, sps, j + 1)
    }
}

/// The task on line `i`, with its metadata lines `i + 1..j`.
pub open spec fn task_at(
    s: Seq<char>,
    sps: Seq<(int, int, int)>,
    status: TaskStatus,
    i: int,
    j: int,
) -> TaskSpec {
    let a = trim_lo(s, sps[i].0, sps[i].1);
    let t = trimmed(s, a + 5, sps[i].1);
    let lo = strip_lead(s, t.0, t.1);
    let hi = strip_trail(s, lo, t.1);
    let md = fold_meta(s, sps, i + 1, j);
    TaskSpec {
        text: s.subrange(lo, hi),
        status,
        context: md.context,
        files: md.files,
        approach: md.approach,
        line_number: i + 1,
    }
}

/// The tasks of lines `i..`, in order.
pub open spec fn tasks_from(
    s: Seq<char>,
    sps: Seq<(int, int, int)>,
    status: TaskStatus,
    i: int,
) -> Seq<TaskSpec>
    decreases sps.len() - i,
{
    if i >= sps.len() {
        seq![]
    } else if is_task_line(s, sps[i]) {
        let j = meta_end(s, sps, i + 1);
        let nj = if i < j <= sps.len() {
            j
        } else {
            i + 1
        };
        seq![task_at(s, sps, status, i, nj)] + tasks_from(s, sps, status, nj)
    } else {
        tasks_from(s, sps, status, i + 1)
    }
}

/// The tasks of a section, each tagged with `status`.
pub open spec fn task_list(sec: Seq<char>, status: TaskStatus) -> Seq<TaskSpec> {
    tasks_from(sec, line_spans(sec), status, 0)
}

proof fn lemma_meta_end_after(s: Seq<char>, sps: Seq<(int, int, int)>, j: int)
    ensures
        meta_end(s, sps, j) >= j || j > sps.len(),
        meta_end(s, sps, j) <= sps.len() || j > sps.len(),
    decreases sps.len() - j,
{
    if j < sps.len() {
        lemma_meta_end_after(s, sps, j + 1);
    }
}

fn task_line(s: &Vec<char>, a: usize, b: usize) -> (r: bool)
    requires
        a <= b <= s@.len(),
    ensures
        r == {
            &&& starts_at(s@, a as int, b as int, TASK_PREFIX@)
            &&& b - a >= 7
            &&& (s@[a + 3] == ' ' || s@[a + 3] == 'x')
            &&& s@[a + 4] == ']'
            &&& is_ws(s@[a + 5])
        },
{
    if !starts_with_at(s, a, b, TASK_PREFIX) || b - a < 7 {
        return false;
    }
    (s[a + 3] == ' ' || s[a + 3] == 'x') && s[a + 4] == ']' && crate::text::is_whitespace(
        s[a + 5],
    )
}

fn strip_lead_exec(s: &Vec<char>, a: usize, b: usize) -> (r: usize)
    requires
        a <= b <= s@.len(),
    ensures
        r == strip_lead(s@, a as int, b as int),
        a <= r <= b,
{
    let mut i: usize = a;
    while b - i >= 2 && s[i] == '*' && s[i + 1] == '*'
        invariant
            a <= i <= b <= s@.len(),
            strip_lead(s@, i as int, b as int) == strip_lead(s@, a as int, b as int),
        decreases b - i,
    {
        i = i + 2;
    }
    i
}

fn strip_trail_exec(s: &Vec<char>, a: usize, b: usize) -> (r: usize)
    requires
        a <= b <= s@.len(),
    ensures
        r == strip_trail(s@, a as int, b as int),
        a <= r <= b,
{
    let mut j: usize = b;
    while j - a >= 2 && s[j - 2] == '*' && s[j - 1] == '*'
        invariant
            a <= j <= b <= s@.len(),
            strip_trail(s@, a as int, j as int) == strip_trail(s@, a as int, b as int),
        decreases j - a,
    {
        j = j - 2;
    }
    j
}

fn value_after(s: &Vec<char>, m: usize, label: &str, b: usize) -> (r: String)
    requires
        starts_at(s@, m as int, b as int, label@),
        m <= b <= s@.len(),
    ensures
        r@ == label_value(s@, m as int, label@, b as int),
{
    let n = label.unicode_len();
    let t = trim_range(s, m + n, b);
    let v = slice_chars(s, t.0, t.1);
    string_of(&v)
}

/// Reads the tasks of one section; `status` tags each of them.
pub(crate) fn task_list_in(sec: &Vec<char>, status: TaskStatus) -> (r: Vec<TaskItem>)
    ensures
        tasks_view(r@) == task_list(sec@, status),
{
    let sps = split_lines(sec);
    let ghost g = line_spans(sec@);
    let n = sps.len();
    assert(n == g.len()) by {
        assert(spans_int(sps@).len() == sps@.len());
    }
    let mut out: Vec<TaskItem> = Vec::new();
    let mut i: usize = 0;
    while i < n
        invariant
            n == sps@.len() == g.len(),
            g == spans_int(sps@),
            g == line_spans(sec@),
            spans_ok(sps@, sec@.len() as int),
            i <= n,
            tasks_view(out@) + tasks_from(sec@, g, status, i as int) == task_list(sec@, status),
        decreases n - i,
    {
        let sp = sps[i];
        assert(g[i as int] == span_int(sp));
        assert(sp.0 <= sp.1 <= sec@.len()) by {
            assert(sps@[i as int] == sp);
        }
        let a = skip_ws(sec, sp.0, sp.1);
        if task_line(sec, a, sp.1) {
            let t = trim_range(sec, a + 5, sp.1);
            let lo = strip_lead_exec(sec, t.0, t.1);
            let hi = strip_trail_exec(sec, lo, t.1);
            let tv = slice_chars(sec, lo, hi);
            let text = string_of(&tv);
            let mut context: Option<String> = None;
            let mut files: Option<String> = None;
            let mut approach: Option<String> = None;
            let mut j: usize = i + 1;
            let mut stop = false;
            proof {
                lemma_meta_end_after(sec@, g, i + 1);
            }
            while j < n && !stop
                invariant
                    n == sps@.len() == g.len(),
                    g == spans_int(sps@),
                    spans_ok(sps@, sec@.len() as int),
                    i < j <= n,
                    meta_end(sec@, g, j as int) == meta_end(sec@, g, i + 1),
                    stop ==> j < n && meta_end(sec@, g, i + 1) == j,
                    fold_meta(sec@, g, i + 1, j as int) == (Meta {
                        context: opt_view(context),
                        files: opt_view(files),
                        approach: opt_view(approach),
                    }),
                decreases n - j + (if stop { 0int } else { 1 }),
            {
                let mp = sps[j];
                assert(g[j as int] == span_int(mp));
                assert(mp.0 <= mp.1 <= sec@.len()) by {
                    assert(sps@[j as int] == mp);
                }
                let m = skip_ws(sec, mp.0, mp.1);
                if starts_with_at(sec, m, mp.1, TASK_PREFIX) || starts_with_at(sec, m, mp.1, "#") {
                    stop = true;
                } else {
                    let mut blank_before_task = false;
                    if m >= mp.1 && j + 1 < n {
                        let np = sps[j + 1];
                        assert(g[j + 1] == span_int(np));
                        assert(np.0 <= np.1 <= sec@.len()) by {
                            assert(sps@[j + 1] == np);
                        }
                        let nm = skip_ws(sec, np.0, np.1);
                        blank_before_task = starts_with_at(sec, nm, np.1, TASK_PREFIX);
                    }
                    if blank_before_task {
                        stop = true;
                    } else {
                        if starts_with_at(sec, m, mp.1, CONTEXT_LABEL) {
                            context = Some(value_after(sec, m, CONTEXT_LABEL, mp.1));
                        } else if starts_with_at(sec, m, mp.1, FILES_LABEL) {
                            files = Some(value_after(sec, m, FILES_LABEL, mp.1));
                        } else if starts_with_at(sec, m, mp.1, APPROACH_LABEL) {
                            approach = Some(value_after(sec, m, APPROACH_LABEL, mp.1));
                        } else if starts_with_at(sec, m, mp.1, DEPENDS_LABEL) && approach.is_none() {
                            let n2 = DEPENDS_LABEL.unicode_len();
                            let vt = trim_range(sec, m + n2, mp.1);
                            let mut v: Vec<char> = Vec::new();
                            push_str(&mut v, DEPENDS_PREFIX);
                            push_range(&mut v, sec, vt.0, vt.1);
                            approach = Some(string_of(&v));
                        }
                        j = j + 1;
                    }
                }
            }
            let item = TaskItem {
                text,
                status,
                context,
                files,
                approach,
                line_number: i + 1,
            };
            let ghost old_out = out@;
            out.push(item);
            assert(tasks_view(out@) =~= tasks_view(old_out).push(item@));
            assert(item@ == task_at(sec@, g, status, i as int, j as int));
            assert(tasks_view(out@) + tasks_from(sec@, g, status, j as int) =~= tasks_view(old_out)
                + tasks_from(sec@, g, status, i as int));
            i = j;
        } else {
            i = i + 1;
        }
    }
    assert(tasks_view(out@) =~= task_list(sec@, status));
    out
}

/// Reads the tasks of one section; `status` tags each of them.
pub fn parse_task_list(section: &str, status: TaskStatus) -> (r: Vec<TaskItem>)
    ensures
        tasks_view(r@) == task_list(section@, status),
{
    let cs = chars_of(section);
    task_list_in(&cs, status)
}


pub const TITLE_WORD: &'static str = "blueprint:";

/// `s[a..a + p.len()]` equals `p`, where an upper-case ASCII letter of `s`
/// also matches its lower-case form in `p`.
pub open spec fn matches_ignoring_case(s: Seq<char>, a: int, p: Seq<char>) -> bool {
    forall|k: int|
        0 <= k < p.len() ==> #[trigger] s[a + k] == p[k] || ('a' <= p[k] <= 'z' && s[a + k] as u32
            == (p[k] as u32) - 32)
}

/// The line reads `#`, whitespace, `Blueprint:` in any case, whitespace and a
/// name; the result is where the name starts.
pub open spec fn title_start(s: Seq<char>, sp: (int, int, int)) -> Option<int> {
    let a = sp.0;
    let b = sp.1;
    let k = trim_lo(s, a + 1, b);
    if b - a >= 2 && s[a] == '#' && is_ws(s[a + 1]) && b - k >= TITLE_WORD@.len() + 2
        && matches_ignoring_case(s, k, TITLE_WORD@) && is_ws(s[k + TITLE_WORD@.len()]) {
        Some(k + TITLE_WORD@.len())
    } else {
        None
    }
}

/// The project name from the first title line at or after line `k`.
pub open spec fn name_from(s: Seq<char>, sps: Seq<(int, int, int)>, k: int) -> Option<Seq<char>>
    decreases sps.len() - k,
{
    if k >= sps.len() {
        None
    } else {
        match title_start(s, sps[k]) {
            Some(st) => {
                let t = trimmed(s, st, sps[k].1);
                Some(s.subrange(t.0, t.1))
            },
            None => name_from(s, sps, k + 1),
        }
    }
}

pub open spec fn project_name_of(s: Seq<char>) -> Option<Seq<char>> {
    name_from(s, line_spans(s), 0)
}

fn title_at(s: &Vec<char>, a: usize, b: usize) -> (r: Option<usize>)
    requires
        a <= b <= s@.len(),
    ensures
        r matches Some(st) ==> st <= b,
        match r {
            Some(st) => title_start(s@, (a as int, b as int, 0)) == Some(st as int),
            None => title_start(s@, (a as int, b as int, 0)) is None,
        },
{
    if b - a < 2 || s[a] != '#' || !crate::text::is_whitespace(s[a + 1]) {
        return None;
    }
    let k = skip_ws(s, a + 1, b);
    let w = TITLE_WORD.unicode_len();
    if b - k < w || b - k - w < 2 {
        return None;
    }
    let mut i: usize = 0;
    while i < w
        invariant
            w == TITLE_WORD@.len(),
            k + w + 2 <= b <= s@.len(),
            k == trim_lo(s@, a + 1, b as int),
            b - a >= 2 && s@[a as int] == '#' && is_ws(s@[a + 1]),
            i <= w,
            forall|t: int|
                0 <= t < i ==> #[trigger] s@[k + t] == TITLE_WORD@[t] || ('a' <= TITLE_WORD@[t]
                    <= 'z' && s@[k + t] as u32 == (TITLE_WORD@[t] as u32) - 32),
        decreases w - i,
    {
        let c = s[k + i];
        let p = TITLE_WORD.get_char(i);
        if !(c == p || ('a' <= p && p <= 'z' && c as u32 == (p as u32) - 32)) {
            assert(s@[k + i] == c);
            assert(!matches_ignoring_case(s@, k as int, TITLE_WORD@));
            return None;
        }
        i = i + 1;
    }
    if !crate::text::is_whitespace(s[k + w]) {
        return None;
    }
    Some(k + w)
}

fn project_name_in(s: &Vec<char>) -> (r: Option<String>)
    ensures
        opt_view(r) == project_name_of(s@),
{
    let sps = split_lines(s);
    let ghost g = line_spans(s@);
    let n = sps.len();
    assert(n == g.len()) by {
        assert(spans_int(sps@).len() == sps@.len());
    }
    let mut k: usize = 0;
    while k < n
        invariant
            n == sps@.len() == g.len(),
            g == spans_int(sps@),
            g == line_spans(s@),
            spans_ok(sps@, s@.len() as int),
            k <= n,
            name_from(s@, g, k as int) == project_name_of(s@),
        decreases n - k,
    {
        let sp = sps[k];
        assert(g[k as int] == span_int(sp));
        assert(sp.0 <= sp.1 <= s@.len()) by {
            assert(sps@[k as int] == sp);
        }
        match title_at(s, sp.0, sp.1) {
            Some(st) => {
                let t = trim_range(s, st, sp.1);
                let v = slice_chars(s, t.0, t.1);
                return Some(string_of(&v));
            },
            None => {},
        }
        k = k + 1;
    }
    None
}

/// The project name of a `# Blueprint: <name>` line, if the text has one.
pub fn extract_project_name(content: &str) -> (r: Option<String>)
    ensures
        opt_view(r) == project_name_of(content@),
{
    let cs = chars_of(content);
    project_name_in(&cs)
}

/// The tasks under the heading `heading`, or none where it is absent.
pub open spec fn queue_of(s: Seq<char>, heading: Seq<char>, status: TaskStatus) -> Seq<TaskSpec> {
    match section_of(s, lower_of(heading)) {
        Some(p) => task_list(s.subrange(p.0, p.1), status),
        None => seq![],
    }
}

pub open spec fn queue_matches(q: TaskQueue, s: Seq<char>) -> bool {
    &&& tasks_view(q.done@) == queue_of(s, "### DONE"@, TaskStatus::Done)
    &&& tasks_view(q.in_progress@) == queue_of(s, "### IN PROGRESS"@, TaskStatus::InProgress)
    &&& tasks_view(q.next_up@) == queue_of(s, "### NEXT UP"@, TaskStatus::NextUp)
    &&& tasks_view(q.icebox@) == queue_of(s, "### ICEBOX"@, TaskStatus::Icebox)
}

fn queue_in(cs: &Vec<char>, heading: &str, status: TaskStatus) -> (r: Vec<TaskItem>)
    ensures
        tasks_view(r@) == queue_of(cs@, heading@, status),
{
    let hc = chars_of(heading);
    let tl = lowercase(&hc);
    match locate(cs, &tl) {
        Some(p) => {
            let sec = slice_chars(cs, p.0, p.1);
            task_list_in(&sec, status)
        },
        None => {
            let r: Vec<TaskItem> = Vec::new();
            assert(tasks_view(r@) =~= seq![]);
            r
        },
    }
}

pub(crate) fn tasks_in(cs: &Vec<char>) -> (r: TaskQueue)
    ensures
        queue_matches(r, cs@),
{
    let done = queue_in(cs, "### DONE", TaskStatus::Done);
    let in_progress = queue_in(cs, "### IN PROGRESS", TaskStatus::InProgress);
    let next_up = queue_in(cs, "### NEXT UP", TaskStatus::NextUp);
    let icebox = queue_in(cs, "### ICEBOX", TaskStatus::Icebox);
    TaskQueue { done, in_progress, next_up, icebox }
}

/// The four task queues read from their `###` sections.
pub fn parse_tasks(content: &str) -> (r: TaskQueue)
    ensures
        queue_matches(r, content@),
{
    let cs = chars_of(content);
    tasks_in(&cs)
}

/// What a parse of `s` yields, field by field.
pub open spec fn parsed_from(bp: Blueprint, s: Seq<char>) -> bool {
    &&& bp.raw@ == s
    &&& bp.has_intent == layer_present(s, lower_of("Layer 1: Intent Map"@))
    &&& bp.has_contracts == layer_present(s, lower_of("Layer 2: Interface Contracts"@))
    &&& bp.has_skeleton == layer_present(s, lower_of("Layer 3: File Skeleton"@))
    &&& queue_matches(bp.tasks, s)
    &&& opt_view(bp.project_name) == project_name_of(s)
}

/// Parses a blueprint: layer presence, task queues and project name.
pub fn parse(content: &str, path: PathBuf) -> (r: Blueprint)
    ensures
        parsed_from(r, content@),
        r.path == path,
{
    let cs = chars_of(content);
    let project_name = project_name_in(&cs);
    let has_intent = layer_in(&cs, "Layer 1: Intent Map");
    let has_contracts = layer_in(&cs, "Layer 2: Interface Contracts");
    let has_skeleton = layer_in(&cs, "Layer 3: File Skeleton");
    let tasks = tasks_in(&cs);
    Blueprint {
        raw: string_of(&cs),
        path,
        has_intent,
        has_contracts,
        has_skeleton,
        tasks,
        project_name,
    }
}

} // verus!
