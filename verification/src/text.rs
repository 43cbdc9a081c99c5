//! Character-level text model: the whitespace class, trimming, newline
//! normalisation and the line and paragraph structure of a message, each as a
//! spec function on `Seq<char>` with an executable counterpart that works on a
//! range `lo..hi` of a character slice.
use vstd::prelude::*;

verus! {

/// Whether `c` has the Unicode `White_Space` property (the class that
/// `char::is_whitespace` and `str::trim` use).
pub open spec fn white_space(c: char) -> bool {
    ||| ('\u{9}' <= c && c <= '\u{d}')
    ||| c == ' '
    ||| c == '\u{85}'
    ||| c == '\u{a0}'
    ||| c == '\u{1680}'
    ||| ('\u{2000}' <= c && c <= '\u{200a}')
    ||| c == '\u{2028}'
    ||| c == '\u{2029}'
    ||| c == '\u{202f}'
    ||| c == '\u{205f}'
    ||| c == '\u{3000}'
}

/// `s` without its leading whitespace.
pub open spec fn trim_start(s: Seq<char>) -> Seq<char>
    decreases s.len(),
{
    if s.len() > 0 && white_space(s[0]) {
        trim_start(s.drop_first())
    } else {
        s
    }
}

/// `s` without its trailing whitespace.
pub open spec fn trim_end(s: Seq<char>) -> Seq<char>
    decreases s.len(),
{
    if s.len() > 0 && white_space(s.last()) {
        trim_end(s.drop_last())
    } else {
        s
    }
}

/// `s` without leading and trailing whitespace.
pub open spec fn trim(s: Seq<char>) -> Seq<char> {
    trim_end(trim_start(s))
}

/// Whether some character of `s` is whitespace.
pub open spec fn has_white_space(s: Seq<char>) -> bool {
    exists|i: int| 0 <= i < s.len() && white_space(#[trigger] s[i])
}

/// Whether `s` begins with `prefix`.
pub open spec fn starts_with(s: Seq<char>, prefix: Seq<char>) -> bool {
    prefix.len() <= s.len() && s.take(prefix.len() as int) == prefix
}

/// The index of the first `c` in `s`, or `s.len()` when there is none.
pub open spec fn index_of(s: Seq<char>, c: char) -> nat
    decreases s.len(),
{
    if s.len() == 0 {
        0
    } else if s[0] == c {
        0
    } else {
        1 + index_of(s.drop_first(), c)
    }
}

/// `s` with every `"\r\n"` replaced by `"\n"`, matches taken left to right.
pub open spec fn normalize_newlines(s: Seq<char>) -> Seq<char>
    decreases s.len(),
{
    if s.len() == 0 {
        s
    } else if s.len() >= 2 && s[0] == '\r' && s[1] == '\n' {
        seq!['\n'] + normalize_newlines(s.skip(2))
    } else {
        seq![s[0]] + normalize_newlines(s.drop_first())
    }
}

/// The index of the first blank-line separator `"\n\n"` in `s`, or
/// `s.len()` when there is none.
pub open spec fn blank_line_at(s: Seq<char>) -> nat
    decreases s.len(),
{
    if s.len() < 2 {
        s.len()
    } else if s[0] == '\n' && s[1] == '\n' {
        0
    } else {
        1 + blank_line_at(s.drop_first())
    }
}

/// The pieces of `s` between its `"\n\n"` separators (matches taken left to
/// right), each trimmed, with the empty ones left out.
pub open spec fn paragraphs(s: Seq<char>) -> Seq<Seq<char>>
    decreases s.len(),
{
    let k = blank_line_at(s);
    let piece = trim(s.take(k as int));
    let tail = if k + 2 <= s.len() {
        paragraphs(s.skip(k + 2int))
    } else {
        seq![]
    };
    if piece.len() == 0 {
        tail
    } else {
        seq![piece] + tail
    }
}

/// `line` without the `'\r'` that ends it, if one does.
pub open spec fn strip_carriage_return(line: Seq<char>) -> Seq<char> {
    if line.len() > 0 && line.last() == '\r' {
        line.drop_last()
    } else {
        line
    }
}

/// The lines of `s`: the pieces between `'\n'` characters, where a line ended
/// by `"\r\n"` loses its `'\r'` and a final `'\n'` opens no further line.
pub open spec fn lines(s: Seq<char>) -> Seq<Seq<char>>
    decreases s.len(),
{
    if s.len() == 0 {
        seq![]
    } else {
        let k = index_of(s, '\n');
        if k < s.len() {
            seq![strip_carriage_return(s.take(k as int))] + lines(s.skip(k + 1int))
        } else {
            seq![s]
        }
    }
}

/// The paragraphs `ps` joined with a blank line between each two.
pub open spec fn join_paragraphs(ps: Seq<Seq<char>>) -> Seq<char>
    decreases ps.len(),
{
    if ps.len() == 0 {
        seq![]
    } else if ps.len() == 1 {
        ps[0]
    } else {
        join_paragraphs(ps.drop_last()) + seq!['\n', '\n'] + ps.last()
    }
}

/// The pieces of `text` that `ranges` mark out.
pub open spec fn slices(text: Seq<char>, ranges: Seq<(usize, usize)>) -> Seq<Seq<char>> {
    ranges.map_values(|r: (usize, usize)| text.subrange(r.0 as int, r.1 as int))
}

/// Whether every range of `ranges` lies inside `lo..hi`.
pub open spec fn within(ranges: Seq<(usize, usize)>, lo: int, hi: int) -> bool {
    forall|i: int| 0 <= i < ranges.len() ==> lo <= (#[trigger] ranges[i]).0 <= ranges[i].1 <= hi
}

/// Copies the characters of `s` into a vector.
pub fn chars_of(s: &str) -> (out: Vec<char>)
    ensures
        out@ == s@,
{
    let mut out: Vec<char> = Vec::new();
    for c in it: s.chars()
        invariant
            out@ == it.seq().take(it.index() as int),
    {
        out.push(c);
    }
    proof {
        assert(out@ =~= s@);
    }
    out
}

/// Whether `c` has the Unicode `White_Space` property.
pub fn is_white_space(c: char) -> (r: bool)
    ensures
        r == white_space(c),
{
    ('\u{9}' <= c && c <= '\u{d}') || c == ' ' || c == '\u{85}' || c == '\u{a0}' || c
        == '\u{1680}' || ('\u{2000}' <= c && c <= '\u{200a}') || c == '\u{2028}' || c
        == '\u{2029}' || c == '\u{202f}' || c == '\u{205f}' || c == '\u{3000}'
}

/// `String::push`: appends the character `c` to the end of `s`.
#[verifier::external_body]
pub(crate) fn push_char(s: &mut String, c: char)
    ensures
        final(s)@ == old(s)@.push(c),
{
    s.push(c);
}

/// Appends `text[lo..hi]` to `s`.
pub fn push_range(s: &mut String, text: &[char], lo: usize, hi: usize)
    requires
        lo <= hi <= text@.len(),
    ensures
        final(s)@ == old(s)@ + text@.subrange(lo as int, hi as int),
{
    let mut i = lo;
    while i < hi
        invariant
            lo <= i <= hi <= text@.len(),
            s@ == old(s)@ + text@.subrange(lo as int, i as int),
        decreases hi - i,
    {
        push_char(s, text[i]);
        i = i + 1;
        assert(s@ =~= old(s)@ + text@.subrange(lo as int, i as int));
    }
}

/// A new string holding `text[lo..hi]`.
pub fn string_of(text: &[char], lo: usize, hi: usize) -> (s: String)
    requires
        lo <= hi <= text@.len(),
    ensures
        s@ == text@.subrange(lo as int, hi as int),
{
    let mut s = String::new();
    push_range(&mut s, text, lo, hi);
    assert(s@ =~= text@.subrange(lo as int, hi as int));
    s
}

/// The bounds of `trim(text[lo..hi])` inside `text`.
pub fn trim_range(text: &[char], lo: usize, hi: usize) -> (r: (usize, usize))
    requires
        lo <= hi <= text@.len(),
    ensures
        lo <= r.0 <= r.1 <= hi,
        text@.subrange(r.0 as int, r.1 as int) == trim(text@.subrange(lo as int, hi as int)),
{
    let mut i = lo;
    while i < hi && is_white_space(text[i])
        invariant
            lo <= i <= hi <= text@.len(),
            trim_start(text@.subrange(lo as int, hi as int)) == trim_start(
                text@.subrange(i as int, hi as int),
            ),
        decreases hi - i,
    {
        assert(text@.subrange(i as int, hi as int).drop_first() =~= text@.subrange(
            i + 1,
            hi as int,
        ));
        i = i + 1;
    }
    let mut j = hi;
    while j > i && is_white_space(text[j - 1])
        invariant
            lo <= i <= j <= hi <= text@.len(),
            trim_start(text@.subrange(lo as int, hi as int)) == text@.subrange(
                i as int,
                hi as int,
            ),
            trim_end(trim_start(text@.subrange(lo as int, hi as int))) == trim_end(
                text@.subrange(i as int, j as int),
            ),
        decreases j - i,
    {
        assert(text@.subrange(i as int, j as int).drop_last() =~= text@.subrange(
            i as int,
            j - 1,
        ));
        j = j - 1;
    }
    (i, j)
}


/// `lo + index_of(text[lo..hi], c)`: the index of the first `c` in the range,
/// or `hi` when there is none.
pub fn find_char(text: &[char], lo: usize, hi: usize, c: char) -> (r: usize)
    requires
        lo <= hi <= text@.len(),
    ensures
        r == lo + index_of(text@.subrange(lo as int, hi as int), c),
        lo <= r <= hi,
{
    let mut i = lo;
    while i < hi && text[i] != c
        invariant
            lo <= i <= hi <= text@.len(),
            index_of(text@.subrange(lo as int, hi as int), c) == (i - lo) + index_of(
                text@.subrange(i as int, hi as int),
                c,
            ),
        decreases hi - i,
    {
        assert(text@.subrange(i as int, hi as int).drop_first() =~= text@.subrange(
            i + 1,
            hi as int,
        ));
        i = i + 1;
    }
    i
}

/// Whether `c` occurs in `text[lo..hi]`.
pub fn contains_char(text: &[char], lo: usize, hi: usize, c: char) -> (r: bool)
    requires
        lo <= hi <= text@.len(),
    ensures
        r == text@.subrange(lo as int, hi as int).contains(c),
{
    let mut i = lo;
    while i < hi
        invariant
            lo <= i <= hi <= text@.len(),
            forall|j: int| lo <= j < i ==> text@[j] != c,
        decreases hi - i,
    {
        if text[i] == c {
            assert(text@.subrange(lo as int, hi as int)[i - lo] == c);
            return true;
        }
        i = i + 1;
    }
    proof {
        if text@.subrange(lo as int, hi as int).contains(c) {
            let k = choose|k: int|
                0 <= k < hi - lo && text@.subrange(lo as int, hi as int)[k] == c;
            assert(text@[lo + k] == c);
        }
    }
    false
}

/// Whether `text[lo..hi]` holds a whitespace character.
pub fn contains_white_space(text: &[char], lo: usize, hi: usize) -> (r: bool)
    requires
        lo <= hi <= text@.len(),
    ensures
        r == has_white_space(text@.subrange(lo as int, hi as int)),
{
    let mut i = lo;
    while i < hi
        invariant
            lo <= i <= hi <= text@.len(),
            forall|j: int| lo <= j < i ==> !white_space(text@[j]),
        decreases hi - i,
    {
        if is_white_space(text[i]) {
            assert(white_space(text@.subrange(lo as int, hi as int)[i - lo]));
            return true;
        }
        i = i + 1;
    }
    proof {
        if has_white_space(text@.subrange(lo as int, hi as int)) {
            let k = choose|k: int|
                0 <= k < hi - lo && white_space(
                    #[trigger] text@.subrange(lo as int, hi as int)[k],
                );
            assert(text@[lo + k] == text@.subrange(lo as int, hi as int)[k]);
        }
    }
    false
}

/// Whether `text[lo..hi]` begins with `prefix`.
pub fn starts_with_str(text: &[char], lo: usize, hi: usize, prefix: &str) -> (r: bool)
    requires
        lo <= hi <= text@.len(),
    ensures
        r == starts_with(text@.subrange(lo as int, hi as int), prefix@),
{
    let n = prefix.unicode_len();
    if n > hi - lo {
        return false;
    }
    let mut k: usize = 0;
    while k < n
        invariant
            n == prefix@.len(),
            lo + n <= hi <= text@.len(),
            k <= n,
            forall|j: int| 0 <= j < k ==> text@[lo + j] == prefix@[j],
        decreases n - k,
    {
        if text[lo + k] != prefix.get_char(k) {
            proof {
                assert(text@.subrange(lo as int, hi as int).take(n as int)[k as int]
                    != prefix@[k as int]);
            }
            return false;
        }
        k = k + 1;
    }
    assert(text@.subrange(lo as int, hi as int).take(n as int) =~= prefix@);
    true
}

/// The characters of `normalize_newlines(text[lo..hi])`.
pub fn normalized(text: &[char], lo: usize, hi: usize) -> (out: Vec<char>)
    requires
        lo <= hi <= text@.len(),
    ensures
        out@ == normalize_newlines(text@.subrange(lo as int, hi as int)),
{
    let mut out: Vec<char> = Vec::new();
    let mut i = lo;
    while i < hi
        invariant
            lo <= i <= hi <= text@.len(),
            out@ + normalize_newlines(text@.subrange(i as int, hi as int)) == normalize_newlines(
                text@.subrange(lo as int, hi as int),
            ),
        decreases hi - i,
    {
        let ghost rest = text@.subrange(i as int, hi as int);
        if i + 1 < hi && text[i] == '\r' && text[i + 1] == '\n' {
            assert(rest.skip(2) =~= text@.subrange(i + 2, hi as int));
            assert(out@.push('\n') + normalize_newlines(rest.skip(2)) =~= out@ + (seq!['\n']
                + normalize_newlines(rest.skip(2))));
            out.push('\n');
            i = i + 2;
        } else {
            assert(rest.drop_first() =~= text@.subrange(i + 1, hi as int));
            assert(out@.push(text@[i as int]) + normalize_newlines(rest.drop_first()) =~= out@
                + (seq![rest[0]] + normalize_newlines(rest.drop_first())));
            out.push(text[i]);
            i = i + 1;
        }
    }
    assert(out@ + normalize_newlines(text@.subrange(i as int, hi as int)) =~= out@);
    out
}


/// `lo + blank_line_at(text[lo..hi])`: where the first `"\n\n"` of the range
/// starts, or `hi` when there is none.
pub fn find_blank_line(text: &[char], lo: usize, hi: usize) -> (r: usize)
    requires
        lo <= hi <= text@.len(),
    ensures
        r == lo + blank_line_at(text@.subrange(lo as int, hi as int)),
        lo <= r <= hi,
{
    let mut i = lo;
    while i < hi && hi - i >= 2 && !(text[i] == '\n' && text[i + 1] == '\n')
        invariant
            lo <= i <= hi <= text@.len(),
            blank_line_at(text@.subrange(lo as int, hi as int)) == (i - lo) + blank_line_at(
                text@.subrange(i as int, hi as int),
            ),
        decreases hi - i,
    {
        assert(text@.subrange(i as int, hi as int).drop_first() =~= text@.subrange(
            i + 1,
            hi as int,
        ));
        i = i + 1;
    }
    if i < hi && hi - i >= 2 {
        i
    } else {
        hi
    }
}

/// The ranges of `text` that hold `paragraphs(text[lo..hi])`, in order.
pub fn paragraph_ranges(text: &[char], lo: usize, hi: usize) -> (out: Vec<(usize, usize)>)
    requires
        lo <= hi <= text@.len(),
    ensures
        slices(text@, out@) == paragraphs(text@.subrange(lo as int, hi as int)),
        within(out@, lo as int, hi as int),
{
    let mut out: Vec<(usize, usize)> = Vec::new();
    let mut i = lo;
    loop
        invariant
            lo <= i <= hi <= text@.len(),
            slices(text@, out@) + paragraphs(text@.subrange(i as int, hi as int)) == paragraphs(
                text@.subrange(lo as int, hi as int),
            ),
            within(out@, lo as int, hi as int),
        decreases hi - i,
    {
        let ghost rest = text@.subrange(i as int, hi as int);
        let k = find_blank_line(text, i, hi);
        let (a, b) = trim_range(text, i, k);
        assert(rest.take(k - i) =~= text@.subrange(i as int, k as int));
        let ghost old_out = out@;
        if a < b {
            out.push((a, b));
            assert(slices(text@, out@) =~= slices(text@, old_out).push(
                text@.subrange(a as int, b as int),
            ));
        }
        if k < hi && hi - k >= 2 {
            assert(rest.skip(k - i + 2) =~= text@.subrange(k + 2, hi as int));
            assert(slices(text@, out@) + paragraphs(text@.subrange(k + 2, hi as int)) =~= slices(
                text@,
                old_out,
            ) + paragraphs(rest));
            i = k + 2;
        } else {
            assert(slices(text@, out@) =~= slices(text@, old_out) + paragraphs(rest));
            return out;
        }
    }
}

/// The ranges of `text` that hold `lines(text[lo..hi])`, in order.
pub fn line_ranges(text: &[char], lo: usize, hi: usize) -> (out: Vec<(usize, usize)>)
    requires
        lo <= hi <= text@.len(),
    ensures
        slices(text@, out@) == lines(text@.subrange(lo as int, hi as int)),
        within(out@, lo as int, hi as int),
{
    let mut out: Vec<(usize, usize)> = Vec::new();
    let mut i = lo;
    while i < hi
        invariant
            lo <= i <= hi <= text@.len(),
            slices(text@, out@) + lines(text@.subrange(i as int, hi as int)) == lines(
                text@.subrange(lo as int, hi as int),
            ),
            within(out@, lo as int, hi as int),
        decreases hi - i,
    {
        let ghost rest = text@.subrange(i as int, hi as int);
        let ghost old_out = out@;
        let k = find_char(text, i, hi, '\n');
        if k < hi {
            let end = if k > i && text[k - 1] == '\r' {
                k - 1
            } else {
                k
            };
            assert(rest.take(k - i) =~= text@.subrange(i as int, k as int));
            assert(strip_carriage_return(rest.take(k - i)) =~= text@.subrange(
                i as int,
                end as int,
            ));
            assert(rest.skip(k - i + 1) =~= text@.subrange(k + 1, hi as int));
            out.push((i, end));
            assert(slices(text@, out@) =~= slices(text@, old_out).push(
                text@.subrange(i as int, end as int),
            ));
            assert(slices(text@, out@) + lines(text@.subrange(k + 1, hi as int)) =~= slices(
                text@,
                old_out,
            ) + lines(rest));
            i = k + 1;
        } else {
            out.push((i, hi));
            assert(slices(text@, out@) =~= slices(text@, old_out).push(rest));
            assert(slices(text@, out@) + lines(text@.subrange(hi as int, hi as int)) =~= slices(
                text@,
                old_out,
            ) + lines(rest));
            i = hi;
        }
    }
    assert(slices(text@, out@) + lines(text@.subrange(i as int, hi as int)) =~= slices(
        text@,
        out@,
    ));
    out
}

/// The characters of `join_paragraphs(slices(text, ranges))`.
pub fn joined(text: &[char], ranges: &[(usize, usize)]) -> (out: Vec<char>)
    requires
        within(ranges@, 0, text@.len() as int),
    ensures
        out@ == join_paragraphs(slices(text@, ranges@)),
{
    let mut out: Vec<char> = Vec::new();
    let mut i: usize = 0;
    while i < ranges.len()
        invariant
            i <= ranges@.len(),
            within(ranges@, 0, text@.len() as int),
            out@ == join_paragraphs(slices(text@, ranges@).take(i as int)),
        decreases ranges@.len() - i,
    {
        let ghost ps = slices(text@, ranges@);
        assert(ps.take(i + 1).drop_last() =~= ps.take(i as int));
        if i > 0 {
            out.push('\n');
            out.push('\n');
        }
        let (a, b) = ranges[i];
        let mut j = a;
        let ghost start = out@;
        while j < b
            invariant
                a <= j <= b <= text@.len(),
                out@ == start + text@.subrange(a as int, j as int),
            decreases b - j,
        {
            out.push(text[j]);
            j = j + 1;
            assert(out@ =~= start + text@.subrange(a as int, j as int));
        }
        assert(out@ =~= join_paragraphs(ps.take(i + 1)));
        i = i + 1;
    }
    assert(slices(text@, ranges@).take(i as int) =~= slices(text@, ranges@));
    out
}


/// The end of `trim_end(text[lo..hi])` inside `text`.
pub fn trim_end_range(text: &[char], lo: usize, hi: usize) -> (r: usize)
    requires
        lo <= hi <= text@.len(),
    ensures
        lo <= r <= hi,
        text@.subrange(lo as int, r as int) == trim_end(text@.subrange(lo as int, hi as int)),
{
    let mut j = hi;
    while j > lo && is_white_space(text[j - 1])
        invariant
            lo <= j <= hi <= text@.len(),
            trim_end(text@.subrange(lo as int, hi as int)) == trim_end(
                text@.subrange(lo as int, j as int),
            ),
        decreases j - lo,
    {
        assert(text@.subrange(lo as int, j as int).drop_last() =~= text@.subrange(
            lo as int,
            j - 1,
        ));
        j = j - 1;
    }
    j
}

/// Whether `a` and `b` hold the same characters.
pub fn str_eq(a: &str, b: &str) -> (r: bool)
    ensures
        r == (a@ == b@),
{
    let n = a.unicode_len();
    if n != b.unicode_len() {
        return false;
    }
    let mut i: usize = 0;
    while i < n
        invariant
            n == a@.len() == b@.len(),
            i <= n,
            forall|j: int| 0 <= j < i ==> a@[j] == b@[j],
        decreases n - i,
    {
        if a.get_char(i) != b.get_char(i) {
            return false;
        }
        i = i + 1;
    }
    assert(a@ =~= b@);
    true
}


/// Whether every character of `s` is whitespace.
pub open spec fn all_white_space(s: Seq<char>) -> bool {
    forall|i: int| 0 <= i < s.len() ==> white_space(#[trigger] s[i])
}

/// Whether `s` ends its lines with a bare `'\n'`: no `'\r'` stands directly
/// before a `'\n'`.
pub open spec fn lf_endings(s: Seq<char>) -> bool {
    forall|i: int| 0 <= i < s.len() - 1 ==> !(#[trigger] s[i] == '\r' && s[i + 1] == '\n')
}

/// `s` with every `'\n'` written as `"\r\n"`.
pub open spec fn crlf_endings(s: Seq<char>) -> Seq<char>
    decreases s.len(),
{
    if s.len() == 0 {
        s
    } else {
        (if s[0] == '\n' {
            seq!['\r', '\n']
        } else {
            seq![s[0]]
        }) + crlf_endings(s.drop_first())
    }
}

/// Leading whitespace does not change `trim_start`.
pub proof fn lemma_trim_start_skips(p: Seq<char>, r: Seq<char>)
    requires
        all_white_space(p),
    ensures
        trim_start(p + r) == trim_start(r),
    decreases p.len(),
{
    if p.len() > 0 {
        assert((p + r).drop_first() =~= p.drop_first() + r);
        assert(white_space((p + r)[0]));
        lemma_trim_start_skips(p.drop_first(), r);
    } else {
        assert(p + r =~= r);
    }
}

/// Trailing whitespace does not change `trim_end`.
pub proof fn lemma_trim_end_skips(r: Seq<char>, q: Seq<char>)
    requires
        all_white_space(q),
    ensures
        trim_end(r + q) == trim_end(r),
    decreases q.len(),
{
    if q.len() > 0 {
        assert((r + q).drop_last() =~= r + q.drop_last());
        assert(white_space((r + q).last()));
        lemma_trim_end_skips(r, q.drop_last());
    } else {
        assert(r + q =~= r);
    }
}

/// A sequence of whitespace trims to nothing at its start.
pub proof fn lemma_trim_start_white(q: Seq<char>)
    requires
        all_white_space(q),
    ensures
        trim_start(q).len() == 0,
{
    lemma_trim_start_skips(q, seq![]);
    assert(q + seq![] =~= q);
}

/// What `trim` keeps: `p + m + q`, with only whitespace in `p` and `q` and no
/// whitespace at either end of `m`, trims to `m`.
pub proof fn lemma_trim_parts(p: Seq<char>, m: Seq<char>, q: Seq<char>)
    requires
        all_white_space(p),
        all_white_space(q),
        m.len() > 0 ==> !white_space(m[0]) && !white_space(m.last()),
    ensures
        trim(p + m + q) == m,
{
    assert(p + m + q =~= p + (m + q));
    lemma_trim_start_skips(p, m + q);
    if m.len() > 0 {
        assert((m + q)[0] == m[0]);
        assert(trim_start(m + q) == m + q);
        lemma_trim_end_skips(m, q);
    } else {
        assert(m + q =~= q);
        lemma_trim_start_white(q);
    }
}

/// Where `trim` cuts: `trim(s)` is `s[a..b]`, with only whitespace before `a`
/// and from `b` on, and no whitespace at either end of `s[a..b]`.
pub proof fn lemma_trim_bounds(s: Seq<char>) -> (r: (int, int))
    ensures
        0 <= r.0 <= r.1 <= s.len(),
        trim(s) == s.subrange(r.0, r.1),
        all_white_space(s.take(r.0)),
        all_white_space(s.skip(r.1)),
        r.0 < r.1 ==> !white_space(s[r.0]) && !white_space(s[r.1 - 1]),
        s == s.take(r.0) + s.subrange(r.0, r.1) + s.skip(r.1),
{
    let a = lemma_trim_start_index(s);
    let u = s.skip(a);
    let j = lemma_trim_end_index(u);
    assert(u.take(j) =~= s.subrange(a, a + j));
    assert forall|i: int| 0 <= i < s.skip(a + j).len() implies white_space(
        #[trigger] s.skip(a + j)[i],
    ) by {
        assert(s.skip(a + j)[i] == u.skip(j)[i]);
    }
    if j == 0 && a < s.len() {
        assert(u[0] == s[a]);
    }
    assert(s =~= s.take(a) + s.subrange(a, a + j) + s.skip(a + j));
    (a, a + j)
}

/// The index at which `trim_start` cuts.
proof fn lemma_trim_start_index(s: Seq<char>) -> (k: int)
    ensures
        0 <= k <= s.len(),
        trim_start(s) == s.skip(k),
        all_white_space(s.take(k)),
        k < s.len() ==> !white_space(s[k]),
    decreases s.len(),
{
    if s.len() > 0 && white_space(s[0]) {
        let k = lemma_trim_start_index(s.drop_first());
        assert(s.drop_first().skip(k) =~= s.skip(k + 1));
        assert forall|i: int| 0 <= i < k + 1 implies white_space(#[trigger] s.take(k + 1)[i]) by {
            if i > 0 {
                assert(s.take(k + 1)[i] == s.drop_first().take(k)[i - 1]);
            }
        }
        k + 1
    } else {
        assert(s.skip(0) =~= s);
        0
    }
}

/// The index at which `trim_end` cuts.
proof fn lemma_trim_end_index(s: Seq<char>) -> (k: int)
    ensures
        0 <= k <= s.len(),
        trim_end(s) == s.take(k),
        all_white_space(s.skip(k)),
        k > 0 ==> !white_space(s[k - 1]),
    decreases s.len(),
{
    if s.len() > 0 && white_space(s.last()) {
        let k = lemma_trim_end_index(s.drop_last());
        assert(s.drop_last().take(k) =~= s.take(k));
        assert forall|i: int| 0 <= i < s.len() - k implies white_space(#[trigger] s.skip(k)[i]) by {
            if k + i < s.len() - 1 {
                assert(s.skip(k)[i] == s.drop_last().skip(k)[i]);
            }
        }
        k
    } else {
        assert(s.take(s.len() as int) =~= s);
        s.len() as int
    }
}

/// Trimming twice trims no more than trimming once.
pub proof fn lemma_trim_idempotent(s: Seq<char>)
    ensures
        trim(trim(s)) == trim(s),
{
    let (a, b) = lemma_trim_bounds(s);
    let m = s.subrange(a, b);
    let e: Seq<char> = seq![];
    assert(e + m + e =~= m);
    lemma_trim_parts(e, m, e);
}

/// A sequence trims to nothing exactly when it is all whitespace.
pub proof fn lemma_trim_empty(s: Seq<char>)
    ensures
        trim(s).len() == 0 <==> all_white_space(s),
{
    let (a, b) = lemma_trim_bounds(s);
    if a == b {
        assert forall|i: int| 0 <= i < s.len() implies white_space(#[trigger] s[i]) by {
            if i < a {
                assert(s[i] == s.take(a)[i]);
            } else {
                assert(s[i] == s.skip(b)[i - b]);
            }
        }
    }
    if all_white_space(s) && a < b {
        assert(white_space(s[a]));
    }
}

/// `crlf_endings` maps concatenations to concatenations.
pub proof fn lemma_crlf_endings_concat(x: Seq<char>, y: Seq<char>)
    ensures
        crlf_endings(x + y) == crlf_endings(x) + crlf_endings(y),
    decreases x.len(),
{
    if x.len() == 0 {
        assert(x + y =~= y);
        assert(crlf_endings(x) + crlf_endings(y) =~= crlf_endings(y));
    } else {
        assert((x + y).drop_first() =~= x.drop_first() + y);
        assert((x + y)[0] == x[0]);
        lemma_crlf_endings_concat(x.drop_first(), y);
        let head = if x[0] == '\n' {
            seq!['\r', '\n']
        } else {
            seq![x[0]]
        };
        assert(head + (crlf_endings(x.drop_first()) + crlf_endings(y)) =~= (head + crlf_endings(
            x.drop_first(),
        )) + crlf_endings(y));
    }
}

/// `crlf_endings` keeps whitespace whitespace.
proof fn lemma_crlf_endings_white(s: Seq<char>)
    requires
        all_white_space(s),
    ensures
        all_white_space(crlf_endings(s)),
    decreases s.len(),
{
    if s.len() > 0 {
        lemma_crlf_endings_white(s.drop_first());
        let head = if s[0] == '\n' {
            seq!['\r', '\n']
        } else {
            seq![s[0]]
        };
        assert(crlf_endings(s) == head + crlf_endings(s.drop_first()));
        assert forall|i: int| 0 <= i < crlf_endings(s).len() implies white_space(
            #[trigger] crlf_endings(s)[i],
        ) by {
            if i >= head.len() {
                assert(crlf_endings(s)[i] == crlf_endings(s.drop_first())[i - head.len()]);
            }
        }
    }
}

/// `crlf_endings` commutes with `trim`.
pub proof fn lemma_trim_crlf_endings(s: Seq<char>)
    ensures
        trim(crlf_endings(s)) == crlf_endings(trim(s)),
{
    let (a, b) = lemma_trim_bounds(s);
    let p = s.take(a);
    let m = s.subrange(a, b);
    let q = s.skip(b);
    lemma_crlf_endings_concat(p + m, q);
    lemma_crlf_endings_concat(p, m);
    lemma_crlf_endings_white(p);
    lemma_crlf_endings_white(q);
    if m.len() > 0 {
        assert(m[0] == s[a]);
        assert(m.last() == s[b - 1]);
        assert(crlf_endings(m)[0] == m[0]);
        assert(m =~= m.drop_last() + seq![m.last()]);
        lemma_crlf_endings_concat(m.drop_last(), seq![m.last()]);
        let z = m.last();
        assert(z != '\n');
        let e: Seq<char> = seq![];
        assert(seq![z].drop_first() =~= e);
        assert(crlf_endings(e) == e);
        assert(crlf_endings(seq![z]) == seq![z] + crlf_endings(e));
        assert(crlf_endings(seq![z]) =~= seq![z]);
    } else {
        assert(crlf_endings(m) =~= m);
    }
    lemma_trim_parts(crlf_endings(p), crlf_endings(m), crlf_endings(q));
}

/// A text with bare `'\n'` line endings is left alone by
/// `normalize_newlines`.
pub proof fn lemma_normalize_lf(t: Seq<char>)
    requires
        lf_endings(t),
    ensures
        normalize_newlines(t) == t,
    decreases t.len(),
{
    if t.len() > 0 {
        let rest = t.drop_first();
        assert(lf_endings(rest)) by {
            assert forall|i: int| 0 <= i < rest.len() - 1 implies !(#[trigger] rest[i] == '\r'
                && rest[i + 1] == '\n') by {
                assert(rest[i] == t[i + 1]);
                assert(rest[i + 1] == t[i + 2]);
            }
        }
        if t.len() >= 2 {
            assert(!(t[0] == '\r' && t[1] == '\n'));
        }
        lemma_normalize_lf(rest);
        assert(seq![t[0]] + rest =~= t);
    }
}

/// Writing the line endings of an LF text as `"\r\n"` and normalising them
/// gives the text back.
pub proof fn lemma_normalize_crlf_endings(t: Seq<char>)
    requires
        lf_endings(t),
    ensures
        normalize_newlines(crlf_endings(t)) == t,
    decreases t.len(),
{
    if t.len() > 0 {
        let rest = t.drop_first();
        assert(lf_endings(rest)) by {
            assert forall|i: int| 0 <= i < rest.len() - 1 implies !(#[trigger] rest[i] == '\r'
                && rest[i + 1] == '\n') by {
                assert(rest[i] == t[i + 1]);
                assert(rest[i + 1] == t[i + 2]);
            }
        }
        lemma_normalize_crlf_endings(rest);
        let c = crlf_endings(t);
        let tail = crlf_endings(rest);
        if t[0] == '\n' {
            assert(c == seq!['\r', '\n'] + tail);
            assert(c.skip(2) =~= tail);
            assert(seq!['\n'] + rest =~= t);
        } else {
            assert(c == seq![t[0]] + tail);
            assert(c.drop_first() =~= tail);
            if t[0] == '\r' && rest.len() > 0 {
                assert(rest[0] != '\n');
                assert(tail[0] == rest[0]);
            }
            assert(seq![t[0]] + rest =~= t);
        }
    }
}

/// Trimming keeps bare `'\n'` line endings.
pub proof fn lemma_trim_lf_endings(s: Seq<char>)
    requires
        lf_endings(s),
    ensures
        lf_endings(trim(s)),
{
    let (a, b) = lemma_trim_bounds(s);
    let m = s.subrange(a, b);
    assert forall|i: int| 0 <= i < m.len() - 1 implies !(#[trigger] m[i] == '\r' && m[i + 1]
        == '\n') by {
        assert(m[i] == s[a + i]);
        assert(m[i + 1] == s[a + i + 1]);
    }
}


/// `index_of` lands inside the sequence or just past it, and finds the
/// character when it is inside.
pub proof fn lemma_index_of_bound(s: Seq<char>, c: char)
    ensures
        index_of(s, c) <= s.len(),
        index_of(s, c) < s.len() ==> s[index_of(s, c) as int] == c,
        forall|j: int| 0 <= j < index_of(s, c) ==> s[j] != c,
    decreases s.len(),
{
    if s.len() > 0 && s[0] != c {
        lemma_index_of_bound(s.drop_first(), c);
        assert forall|j: int| 0 <= j < index_of(s, c) implies s[j] != c by {
            if j > 0 {
                assert(s[j] == s.drop_first()[j - 1]);
            }
        }
    }
}


/// A character absent from `p` and standing first in `q` is found right
/// after `p`.
pub proof fn lemma_index_of_after(p: Seq<char>, q: Seq<char>, c: char)
    requires
        !p.contains(c),
        q.len() > 0,
        q[0] == c,
    ensures
        index_of(p + q, c) == p.len(),
{
    let s = p + q;
    lemma_index_of_bound(s, c);
    let k = index_of(s, c);
    if k < p.len() {
        assert(s[k as int] == p[k as int]);
    }
    assert(s[p.len() as int] == c);
}

/// A character absent from `s` is not found in it.
pub proof fn lemma_index_of_absent(s: Seq<char>, c: char)
    requires
        !s.contains(c),
    ensures
        index_of(s, c) == s.len(),
{
    lemma_index_of_bound(s, c);
    if index_of(s, c) < s.len() {
        assert(s[index_of(s, c) as int] == c);
    }
}

/// A prefix without `'\r'` passes through `normalize_newlines` unchanged.
pub proof fn lemma_normalize_prefix(p: Seq<char>, q: Seq<char>)
    requires
        !p.contains('\r'),
    ensures
        normalize_newlines(p + q) == p + normalize_newlines(q),
    decreases p.len(),
{
    if p.len() == 0 {
        assert(p + q =~= q);
        assert(p + normalize_newlines(q) =~= normalize_newlines(q));
    } else {
        let s = p + q;
        assert(s[0] == p[0]);
        assert(p[0] != '\r');
        assert(s.drop_first() =~= p.drop_first() + q);
        assert(!p.drop_first().contains('\r')) by {
            if p.drop_first().contains('\r') {
                let j = choose|j: int| 0 <= j < p.drop_first().len() && p.drop_first()[j] == '\r';
                assert(p[j + 1] == '\r');
            }
        }
        lemma_normalize_prefix(p.drop_first(), q);
        assert(seq![p[0]] + (p.drop_first() + normalize_newlines(q)) =~= p + normalize_newlines(q));
    }
}

/// A non-empty trimmed sequence has no whitespace at either end.
pub proof fn lemma_trimmed_ends(s: Seq<char>)
    requires
        s.len() > 0,
        trim(s) == s,
    ensures
        !white_space(s[0]),
        !white_space(s.last()),
{
    let (a, b) = lemma_trim_bounds(s);
    assert(s.subrange(a, b).len() == s.len());
}

} // verus!
