//! Character-level text model: whitespace, trimming, line spans and
//! substring search over a document held as a sequence of `char`s.
use vstd::prelude::*;
use vstd::string::StrSliceExecFns;

verus! {

/// The Unicode `White_Space` characters, as `char::is_whitespace` knows them.
pub open spec fn is_ws(c: char) -> bool {
    let v = c as u32;
    (0x9 <= v && v <= 0xd) || v == 0x20 || v == 0x85 || v == 0xa0 || v == 0x1680 || (0x2000
        <= v && v <= 0x200a) || v == 0x2028 || v == 0x2029 || v == 0x202f || v == 0x205f || v
        == 0x3000
}

pub fn is_whitespace(c: char) -> (r: bool)
    ensures
        r == is_ws(c),
{
    let v = c as u32;
    (0x9 <= v && v <= 0xd) || v == 0x20 || v == 0x85 || v == 0xa0 || v == 0x1680 || (0x2000
        <= v && v <= 0x200a) || v == 0x2028 || v == 0x2029 || v == 0x202f || v == 0x205f || v
        == 0x3000
}

/// First index in `[a, b)` of `s` that is not whitespace, or `b`.
pub open spec fn trim_lo(s: Seq<char>, a: int, b: int) -> int
    decreases b - a,
{
    if a < b && is_ws(s[a]) {
        trim_lo(s, a + 1, b)
    } else {
        a
    }
}

/// One past the last index in `[a, b)` of `s` that is not whitespace, or `a`.
pub open spec fn trim_hi(s: Seq<char>, a: int, b: int) -> int
    decreases b - a,
{
    if a < b && is_ws(s[b - 1]) {
        trim_hi(s, a, b - 1)
    } else {
        b
    }
}

pub proof fn lemma_trim_lo_bounds(s: Seq<char>, a: int, b: int)
    requires
        a <= b,
    ensures
        a <= trim_lo(s, a, b) <= b,
    decreases b - a,
{
    if a < b && is_ws(s[a]) {
        lemma_trim_lo_bounds(s, a + 1, b);
    }
}

pub proof fn lemma_trim_hi_bounds(s: Seq<char>, a: int, b: int)
    requires
        a <= b,
    ensures
        a <= trim_hi(s, a, b) <= b,
    decreases b - a,
{
    if a < b && is_ws(s[b - 1]) {
        lemma_trim_hi_bounds(s, a, b - 1);
    }
}

/// Bounds of `s[a..b]` with whitespace removed at both ends.
pub open spec fn trimmed(s: Seq<char>, a: int, b: int) -> (int, int) {
    (trim_lo(s, a, b), trim_hi(s, trim_lo(s, a, b), b))
}

pub fn skip_ws(s: &Vec<char>, a: usize, b: usize) -> (r: usize)
    requires
        a <= b <= s@.len(),
    ensures
        r == trim_lo(s@, a as int, b as int),
        a <= r <= b,
{
    let mut i: usize = a;
    while i < b && is_whitespace(s[i])
        invariant
            a <= i <= b <= s@.len(),
            trim_lo(s@, i as int, b as int) == trim_lo(s@, a as int, b as int),
        decreases b - i,
    {
        i = i + 1;
    }
    i
}

pub fn skip_ws_back(s: &Vec<char>, a: usize, b: usize) -> (r: usize)
    requires
        a <= b <= s@.len(),
    ensures
        r == trim_hi(s@, a as int, b as int),
        a <= r <= b,
{
    let mut j: usize = b;
    while j > a && is_whitespace(s[j - 1])
        invariant
            a <= j <= b <= s@.len(),
            trim_hi(s@, a as int, j as int) == trim_hi(s@, a as int, b as int),
        decreases j - a,
    {
        j = j - 1;
    }
    j
}

pub fn trim_range(s: &Vec<char>, a: usize, b: usize) -> (r: (usize, usize))
    requires
        a <= b <= s@.len(),
    ensures
        (r.0 as int, r.1 as int) == trimmed(s@, a as int, b as int),
        a <= r.0 <= r.1 <= b,
{
    let lo = skip_ws(s, a, b);
    let hi = skip_ws_back(s, lo, b);
    (lo, hi)
}

/// `s[a..b]` begins with `p`.
pub open spec fn starts_at(s: Seq<char>, a: int, b: int, p: Seq<char>) -> bool {
    b - a >= p.len() && s.subrange(a, a + p.len()) == p
}

pub fn starts_with_at(s: &Vec<char>, a: usize, b: usize, p: &str) -> (r: bool)
    requires
        a <= b <= s@.len(),
    ensures
        r == starts_at(s@, a as int, b as int, p@),
{
    let n = p.unicode_len();
    if b - a < n {
        return false;
    }
    let ghost w = s@.subrange(a as int, a + n);
    let mut k: usize = 0;
    while k < n
        invariant
            n == p@.len(),
            a + n <= b <= s@.len(),
            k <= n,
            w == s@.subrange(a as int, a + n),
            forall|t: int| 0 <= t < k ==> #[trigger] w[t] == p@[t],
        decreases n - k,
    {
        assert(w[k as int] == s@[a + k]);
        if s[a + k] != p.get_char(k) {
            return false;
        }
        k = k + 1;
    }
    assert(w =~= p@);
    true
}

/// `needle` occurs in `hay` as a contiguous run.
pub open spec fn contains(hay: Seq<char>, needle: Seq<char>) -> bool {
    exists|i: int|
        0 <= i && i + needle.len() <= hay.len() && #[trigger] hay.subrange(i, i + needle.len())
            == needle
}

pub fn contains_chars(hay: &Vec<char>, needle: &Vec<char>) -> (r: bool)
    ensures
        r == contains(hay@, needle@),
{
    let n = needle.len();
    let hl = hay.len();
    if n > hl {
        return false;
    }
    if n == 0 {
        assert(hay@.subrange(0, 0) =~= needle@);
        assert(hay@.subrange(0, 0 + needle@.len() as int) == needle@);
        return true;
    }
    let mut i: usize = 0;
    while i <= hl - n
        invariant
            0 < n == needle@.len() <= hay@.len() == hl,
            i <= hay@.len() - n + 1,
            forall|t: int| 0 <= t < i ==> #[trigger] hay@.subrange(t, t + n) != needle@,
        decreases hay@.len() + 1 - i,
    {
        let ghost w = hay@.subrange(i as int, i + n);
        let mut k: usize = 0;
        let mut same = true;
        while k < n
            invariant
                n == needle@.len(),
                i + n <= hay@.len() == hl,
                k <= n,
                w == hay@.subrange(i as int, i + n),
                same ==> forall|t: int| 0 <= t < k ==> #[trigger] w[t] == needle@[t],
                !same ==> w != needle@,
            decreases n - k,
        {
            assert(w[k as int] == hay@[i + k]);
            if hay[i + k] != needle[k] {
                same = false;
            }
            k = k + 1;
        }
        if same {
            assert(w =~= needle@);
            return true;
        }
        i = i + 1;
    }
    assert forall|t: int| 0 <= t && t + n <= hay@.len() implies #[trigger] hay@.subrange(
        t,
        t + n,
    ) != needle@ by {
        assert(t < i);
    }
    false
}

/// Copy of `s[a..b]`.
pub fn slice_chars(s: &Vec<char>, a: usize, b: usize) -> (r: Vec<char>)
    requires
        a <= b <= s@.len(),
    ensures
        r@ == s@.subrange(a as int, b as int),
{
    let mut r: Vec<char> = Vec::new();
    let mut i: usize = a;
    while i < b
        invariant
            a <= i <= b <= s@.len(),
            r@ == s@.subrange(a as int, i as int),
        decreases b - i,
    {
        r.push(s[i]);
        assert(r@ =~= s@.subrange(a as int, i + 1));
        i = i + 1;
    }
    r
}

/// Appends the characters of a literal.
pub fn push_str(out: &mut Vec<char>, p: &str)
    ensures
        final(out)@ == old(out)@ + p@,
{
    let n = p.unicode_len();
    let mut k: usize = 0;
    while k < n
        invariant
            n == p@.len(),
            k <= n,
            out@ == old(out)@ + p@.subrange(0, k as int),
        decreases n - k,
    {
        out.push(p.get_char(k));
        assert(p@.subrange(0, k + 1) =~= p@.subrange(0, k as int).push(p@[k as int]));
        k = k + 1;
    }
    assert(p@.subrange(0, n as int) =~= p@);
}

/// Appends `s[a..b]`.
pub fn push_range(out: &mut Vec<char>, s: &Vec<char>, a: usize, b: usize)
    requires
        a <= b <= s@.len(),
    ensures
        final(out)@ == old(out)@ + s@.subrange(a as int, b as int),
{
    let mut i: usize = a;
    while i < b
        invariant
            a <= i <= b <= s@.len(),
            out@ == old(out)@ + s@.subrange(a as int, i as int),
        decreases b - i,
    {
        out.push(s[i]);
        assert(s@.subrange(a as int, i + 1) =~= s@.subrange(a as int, i as int).push(s@[i as int]));
        i = i + 1;
    }
}

/// Where the line holding `s[start..j)` ends its content, given that `j` is
/// a newline or the end: a carriage return before a newline is dropped.
pub open spec fn cut_end(s: Seq<char>, start: int, j: int) -> int {
    if j < s.len() && j > start && s[j - 1] == '\r' {
        j - 1
    } else {
        j
    }
}

/// The lines of `s` from a line that begins at `start`, scanning from `j`:
/// each is (first index, end of content, first index of the next line).
pub open spec fn spans_from(s: Seq<char>, start: int, j: int) -> Seq<(int, int, int)>
    decreases s.len() - j,
{
    if j >= s.len() {
        if start < s.len() {
            seq![(start, s.len() as int, s.len() as int)]
        } else {
            seq![]
        }
    } else if s[j] == '\n' {
        seq![(start, cut_end(s, start, j), j + 1)] + spans_from(s, j + 1, j + 1)
    } else {
        spans_from(s, start, j + 1)
    }
}

/// The lines of `s`, split at `\n` (and `\r\n`); a final line ending adds no line.
pub open spec fn line_spans(s: Seq<char>) -> Seq<(int, int, int)> {
    spans_from(s, 0, 0)
}

pub open spec fn span_int(p: (usize, usize, usize)) -> (int, int, int) {
    (p.0 as int, p.1 as int, p.2 as int)
}

pub open spec fn spans_int(v: Seq<(usize, usize, usize)>) -> Seq<(int, int, int)> {
    v.map_values(|p: (usize, usize, usize)| span_int(p))
}

pub open spec fn spans_ok(v: Seq<(usize, usize, usize)>, n: int) -> bool {
    &&& forall|k: int| 0 <= k < v.len() ==> #[trigger] v[k].0 <= v[k].1 <= v[k].2 <= n
    &&& forall|k1: int, k2: int|
        0 <= k1 < k2 < v.len() ==> #[trigger] v[k1].2 <= #[trigger] v[k2].0
}

pub fn split_lines(s: &Vec<char>) -> (r: Vec<(usize, usize, usize)>)
    ensures
        spans_int(r@) == line_spans(s@),
        spans_ok(r@, s@.len() as int),
{
    let mut out: Vec<(usize, usize, usize)> = Vec::new();
    let mut start: usize = 0;
    let mut j: usize = 0;
    let n = s.len();
    while j < n
        invariant
            n == s@.len(),
            start <= j <= n,
            spans_int(out@) + spans_from(s@, start as int, j as int) == line_spans(s@),
            spans_ok(out@, n as int),
            forall|k: int| 0 <= k < out@.len() ==> #[trigger] out@[k].2 <= start,
        decreases n - j,
    {
        if s[j] == '\n' {
            let cut = if j > start && s[j - 1] == '\r' {
                j - 1
            } else {
                j
            };
            let ghost old_out = out@;
            out.push((start, cut, j + 1));
            assert(spans_ok(out@, n as int)) by {
                assert forall|k: int| 0 <= k < out@.len() implies #[trigger] out@[k].0
                    <= out@[k].1 <= out@[k].2 <= n by {
                    if k < old_out.len() {
                        assert(out@[k] == old_out[k]);
                    }
                }
                assert forall|k1: int, k2: int|
                    0 <= k1 < k2 < out@.len() implies #[trigger] out@[k1].2
                    <= #[trigger] out@[k2].0 by {
                    assert(out@[k1] == old_out[k1]);
                    assert(old_out[k1].2 <= start);
                    if k2 < old_out.len() {
                        assert(out@[k2] == old_out[k2]);
                    } else {
                        assert(out@[k2] == (start, cut, (j + 1) as usize));
                    }
                }
            }
            assert forall|k: int| 0 <= k < out@.len() implies #[trigger] out@[k].2 <= j + 1 by {
                if k < old_out.len() {
                    assert(out@[k] == old_out[k]);
                }
            }
            assert(spans_int(out@) =~= spans_int(old_out).push((start as int, cut as int, j + 1)));
            assert(spans_int(out@) + spans_from(s@, (j + 1) as int, (j + 1) as int) =~= spans_int(
                old_out,
            ) + (seq![(start as int, cut as int, j + 1)] + spans_from(
                s@,
                (j + 1) as int,
                (j + 1) as int,
            )));
            start = j + 1;
        }
        j = j + 1;
    }
    if start < n {
        let ghost old_out = out@;
        out.push((start, n, n));
        assert(spans_ok(out@, n as int)) by {
            assert forall|k: int| 0 <= k < out@.len() implies #[trigger] out@[k].0 <= out@[k].1
                <= out@[k].2 <= n by {
                if k < old_out.len() {
                    assert(out@[k] == old_out[k]);
                }
            }
            assert forall|k1: int, k2: int|
                0 <= k1 < k2 < out@.len() implies #[trigger] out@[k1].2 <= #[trigger] out@[k2].0 by {
                assert(out@[k1] == old_out[k1]);
                assert(old_out[k1].2 <= start);
                if k2 < old_out.len() {
                    assert(out@[k2] == old_out[k2]);
                } else {
                    assert(out@[k2] == (start, n, n));
                }
            }
        }
        assert(spans_int(out@) =~= spans_int(old_out) + seq![(start as int, n as int, n as int)]);
    } else {
        assert(spans_int(out@) =~= spans_int(out@) + spans_from(s@, start as int, j as int));
    }
    out
}

/// The lines of `s`, without their line endings.
pub open spec fn lines_of(s: Seq<char>) -> Seq<Seq<char>> {
    line_spans(s).map_values(|sp: (int, int, int)| s.subrange(sp.0, sp.1))
}

/// The lines joined with `\n` between them.
pub open spec fn join_lines(ls: Seq<Seq<char>>) -> Seq<char>
    decreases ls.len(),
{
    if ls.len() == 0 {
        seq![]
    } else if ls.len() == 1 {
        ls[0]
    } else {
        join_lines(ls.drop_last()) + seq!['\n'] + ls.last()
    }
}

pub open spec fn lines_view(v: Seq<Vec<char>>) -> Seq<Seq<char>> {
    v.map_values(|l: Vec<char>| l@)
}

/// The lines of `s`, each copied out.
pub fn split_into_lines(s: &Vec<char>) -> (r: Vec<Vec<char>>)
    ensures
        lines_view(r@) == lines_of(s@),
{
    let sps = split_lines(s);
    let ghost g = line_spans(s@);
    let n = sps.len();
    assert(n == g.len()) by {
        assert(spans_int(sps@).len() == sps@.len());
    }
    let mut out: Vec<Vec<char>> = Vec::new();
    let mut k: usize = 0;
    while k < n
        invariant
            n == sps@.len() == g.len(),
            g == spans_int(sps@),
            g == line_spans(s@),
            spans_ok(sps@, s@.len() as int),
            k <= n,
            lines_view(out@) == lines_of(s@).subrange(0, k as int),
        decreases n - k,
    {
        let sp = sps[k];
        assert(g[k as int] == span_int(sp));
        assert(sp.0 <= sp.1 <= s@.len()) by {
            assert(sps@[k as int] == sp);
        }
        let line = slice_chars(s, sp.0, sp.1);
        let ghost old_out = out@;
        out.push(line);
        assert(lines_view(out@) =~= lines_view(old_out).push(line@));
        assert(lines_of(s@).subrange(0, k + 1) =~= lines_of(s@).subrange(0, k as int).push(
            line@,
        ));
        k = k + 1;
    }
    assert(lines_of(s@).subrange(0, n as int) =~= lines_of(s@));
    out
}

/// Appends line `l` to the joined text of the lines before it.
pub(crate) fn push_line(out: &mut Vec<char>, l: &Vec<char>, first: bool, ls: Ghost<Seq<Seq<char>>>)
    requires
        old(out)@ == join_lines(ls@),
        first == (ls@.len() == 0),
    ensures
        final(out)@ == join_lines(ls@.push(l@)),
{
    assert(ls@.push(l@).drop_last() =~= ls@);
    if !first {
        out.push('\n');
    }
    push_range(out, l, 0, l.len());
    assert(l@.subrange(0, l@.len() as int) =~= l@);
    if first {
        assert(final(out)@ =~= l@);
    } else {
        assert(final(out)@ =~= old(out)@ + seq!['\n'] + l@);
    }
}

/// The lines joined with `\n` between them.
pub fn join_all(ls: &Vec<Vec<char>>) -> (r: Vec<char>)
    ensures
        r@ == join_lines(lines_view(ls@)),
{
    let mut out: Vec<char> = Vec::new();
    let mut k: usize = 0;
    while k < ls.len()
        invariant
            k <= ls@.len(),
            out@ == join_lines(lines_view(ls@).subrange(0, k as int)),
        decreases ls@.len() - k,
    {
        push_line(&mut out, &ls[k], k == 0, Ghost(lines_view(ls@).subrange(0, k as int)));
        assert(lines_view(ls@).subrange(0, k as int).push(ls@[k as int]@) =~= lines_view(
            ls@,
        ).subrange(0, k + 1));
        k = k + 1;
    }
    assert(lines_view(ls@).subrange(0, k as int) =~= lines_view(ls@));
    out
}

/// The decimal digit `d`.
pub open spec fn digit(d: nat) -> char {
    if d == 0 {
        '0'
    } else if d == 1 {
        '1'
    } else if d == 2 {
        '2'
    } else if d == 3 {
        '3'
    } else if d == 4 {
        '4'
    } else if d == 5 {
        '5'
    } else if d == 6 {
        '6'
    } else if d == 7 {
        '7'
    } else if d == 8 {
        '8'
    } else {
        '9'
    }
}

/// Decimal notation of `n`, without leading zeros.
pub open spec fn decimal(n: nat) -> Seq<char>
    decreases n,
{
    if n < 10 {
        seq![digit(n)]
    } else {
        decimal(n / 10) + seq![digit(n % 10)]
    }
}

fn digit_exec(d: usize) -> (c: char)
    requires
        d < 10,
    ensures
        c == digit(d as nat),
{
    if d == 0 {
        '0'
    } else if d == 1 {
        '1'
    } else if d == 2 {
        '2'
    } else if d == 3 {
        '3'
    } else if d == 4 {
        '4'
    } else if d == 5 {
        '5'
    } else if d == 6 {
        '6'
    } else if d == 7 {
        '7'
    } else if d == 8 {
        '8'
    } else {
        '9'
    }
}

/// Appends the decimal notation of `n`.
pub fn push_decimal(out: &mut Vec<char>, n: usize)
    ensures
        final(out)@ == old(out)@ + decimal(n as nat),
{
    let mut m: usize = n;
    let mut suffix: Vec<char> = Vec::new();
    while m >= 10
        invariant
            decimal(n as nat) == decimal(m as nat) + suffix@,
        decreases m,
    {
        let ghost old_suffix = suffix@;
        suffix.insert(0, digit_exec(m % 10));
        assert(suffix@ =~= seq![digit((m % 10) as nat)] + old_suffix);
        assert(decimal(m as nat) == decimal((m / 10) as nat) + seq![digit((m % 10) as nat)]);
        assert(decimal((m / 10) as nat) + seq![digit((m % 10) as nat)] + old_suffix =~= decimal(
            (m / 10) as nat,
        ) + suffix@);
        m = m / 10;
    }
    out.push(digit_exec(m));
    let mut k: usize = 0;
    let ghost base = out@;
    while k < suffix.len()
        invariant
            k <= suffix@.len(),
            out@ == base + suffix@.subrange(0, k as int),
        decreases suffix@.len() - k,
    {
        out.push(suffix[k]);
        assert(suffix@.subrange(0, k + 1) =~= suffix@.subrange(0, k as int).push(suffix@[k as int]));
        k = k + 1;
    }
    assert(suffix@.subrange(0, suffix@.len() as int) =~= suffix@);
    assert(base =~= old(out)@ + decimal(m as nat));
    assert(out@ =~= old(out)@ + decimal(n as nat));
}

/// Relies on `str::chars`: the characters of a string, in order.
#[verifier::external_body]
pub(crate) fn chars_of(s: &str) -> (r: Vec<char>)
    ensures
        r@ == s@,
{
    s.chars().collect()
}

/// Relies on `String`'s `FromIterator<char>`: the string of these characters.
#[verifier::external_body]
pub(crate) fn string_of(cs: &Vec<char>) -> (r: String)
    ensures
        r@ == cs@,
{
    cs.iter().collect()
}

/// What `str::to_lowercase` makes of a string.
pub uninterp spec fn lower_of(s: Seq<char>) -> Seq<char>;

/// Relies on `str::to_lowercase`: the result depends on the characters alone.
#[verifier::external_body]
pub(crate) fn lowercase(cs: &Vec<char>) -> (r: Vec<char>)
    ensures
        r@ == lower_of(cs@),
{
    let s: String = cs.iter().collect();
    s.to_lowercase().chars().collect()
}

} // verus!
