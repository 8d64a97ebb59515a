//! Character-level helpers shared by every text rule: whitespace as Unicode
//! defines it, trimming, comparison, and moving between `&str`, `String` and
//! `Vec<char>`.

use vstd::prelude::*;

verus! {

/// Unicode `White_Space`, the property `char::is_whitespace` reports and that
/// `str::trim` and its relatives strip.
pub open spec fn is_ws(c: char) -> bool {
    ||| ('\u{9}' <= c && c <= '\u{d}')
    ||| c == ' '
    ||| c == '\u{85}'
    ||| c == '\u{a0}'
    ||| c == '\u{1680}'
    ||| ('\u{2000}' <= c && c <= '\u{200a}')
    ||| c == '\u{2028}'
    ||| c == '\u{2029}'
    ||| c == '\u{202f}'
    ||| c == '\u{205f}'
    ||| c == '\u{3000}'
}

/// `s` without its trailing whitespace.
pub open spec fn trim_end(s: Seq<char>) -> Seq<char>
    decreases s.len(),
{
    if s.len() > 0 && is_ws(s.last()) {
        trim_end(s.drop_last())
    } else {
        s
    }
}

/// `s` without its leading whitespace.
pub open spec fn trim_start(s: Seq<char>) -> Seq<char>
    decreases s.len(),
{
    if s.len() > 0 && is_ws(s[0]) {
        trim_start(s.drop_first())
    } else {
        s
    }
}

/// `s` without whitespace at either end, as `str::trim` leaves it.
pub open spec fn trim(s: Seq<char>) -> Seq<char> {
    trim_end(trim_start(s))
}

/// `s` without every trailing `c`, as `str::trim_end_matches(c)` leaves it.
pub open spec fn strip_end(s: Seq<char>, c: char) -> Seq<char>
    decreases s.len(),
{
    if s.len() > 0 && s.last() == c {
        strip_end(s.drop_last(), c)
    } else {
        s
    }
}

pub fn is_whitespace(c: char) -> (b: bool)
    ensures
        b == is_ws(c),
{
    ('\u{9}' <= c && c <= '\u{d}') || c == ' ' || c == '\u{85}' || c == '\u{a0}' || c == '\u{1680}'
        || ('\u{2000}' <= c && c <= '\u{200a}') || c == '\u{2028}' || c == '\u{2029}'
        || c == '\u{202f}' || c == '\u{205f}' || c == '\u{3000}'
}

pub proof fn lemma_trim_end_is_prefix(s: Seq<char>)
    ensures
        trim_end(s).len() <= s.len(),
        trim_end(s) == s.take(trim_end(s).len() as int),
        trim_end(s).len() == 0 || !is_ws(trim_end(s).last()),
    decreases s.len(),
{
    if s.len() > 0 && is_ws(s.last()) {
        lemma_trim_end_is_prefix(s.drop_last());
        assert(s.drop_last().take(trim_end(s).len() as int) == s.take(trim_end(s).len() as int));
    } else {
        assert(s.take(s.len() as int) == s);
    }
}

pub proof fn lemma_trim_start_is_suffix(s: Seq<char>)
    ensures
        trim_start(s).len() <= s.len(),
        trim_start(s) == s.skip(s.len() - trim_start(s).len()),
        trim_start(s).len() == 0 || !is_ws(trim_start(s)[0]),
    decreases s.len(),
{
    if s.len() > 0 && is_ws(s[0]) {
        lemma_trim_start_is_suffix(s.drop_first());
        assert(s.drop_first().skip(s.len() - 1 - trim_start(s).len()) == s.skip(
            s.len() - trim_start(s).len(),
        ));
    } else {
        assert(s.skip(0) == s);
    }
}

/// Only whitespace is dropped from the front.
pub proof fn lemma_trim_start_drops_ws(s: Seq<char>)
    ensures
        forall|j: int| 0 <= j < s.len() - trim_start(s).len() ==> #[trigger] is_ws(s[j]),
    decreases s.len(),
{
    if s.len() > 0 && is_ws(s[0]) {
        lemma_trim_start_drops_ws(s.drop_first());
        assert forall|j: int| 0 <= j < s.len() - trim_start(s).len() implies #[trigger] is_ws(s[j]) by {
            if j > 0 {
                assert(s.drop_first()[j - 1] == s[j]);
            }
        }
    }
}

/// Only whitespace is dropped from the end.
pub proof fn lemma_trim_end_drops_ws(s: Seq<char>)
    ensures
        forall|j: int| trim_end(s).len() <= j < s.len() ==> #[trigger] is_ws(s[j]),
    decreases s.len(),
{
    if s.len() > 0 && is_ws(s.last()) {
        lemma_trim_end_drops_ws(s.drop_last());
        lemma_trim_end_is_prefix(s.drop_last());
        assert forall|j: int| trim_end(s).len() <= j < s.len() implies #[trigger] is_ws(s[j]) by {
            if j < s.len() - 1 {
                assert(s.drop_last()[j] == s[j]);
            }
        }
    }
}

/// A string with something other than whitespace in it keeps something when
/// trimmed, and what it keeps starts and ends with that something.
pub proof fn lemma_trim_nonempty(s: Seq<char>, i: int)
    requires
        0 <= i < s.len(),
        !is_ws(s[i]),
    ensures
        trim(s).len() > 0,
        !is_ws(trim(s)[0]),
        !is_ws(trim(s).last()),
{
    lemma_trim_start_drops_ws(s);
    lemma_trim_start_is_suffix(s);
    let t = trim_start(s);
    assert(t.len() > 0);
    lemma_trim_end_is_prefix(t);
    lemma_trim_end_drops_ws(t);
    assert(!is_ws(t[0]));
    assert(trim_end(t).len() > 0);
    assert(trim_end(t)[0] == t[0]);
}

/// Trimming an already trimmed end changes nothing.
pub proof fn lemma_trim_end_idempotent(s: Seq<char>)
    ensures
        trim_end(trim_end(s)) == trim_end(s),
{
    lemma_trim_end_is_prefix(s);
}

/// What `trim` keeps is one stretch of the original, starting at the
/// returned offset.
pub proof fn lemma_trim_offset(s: Seq<char>) -> (k: int)
    ensures
        0 <= k,
        k + trim(s).len() <= s.len(),
        trim(s) == s.subrange(k, k + trim(s).len()),
{
    lemma_trim_start_is_suffix(s);
    let t = trim_start(s);
    lemma_trim_end_is_prefix(t);
    let k = s.len() - t.len();
    assert(trim(s) =~= s.subrange(k, k + trim(s).len()));
    k
}

/// A string that neither starts nor ends with whitespace is already trimmed.
pub proof fn lemma_trim_fixed(s: Seq<char>)
    requires
        s.len() > 0,
        !is_ws(s[0]),
        !is_ws(s.last()),
    ensures
        trim(s) == s,
{
    assert(trim_start(s) == s);
}

/// What `strip_end` keeps is a prefix.
pub proof fn lemma_strip_end_is_prefix(s: Seq<char>, c: char)
    ensures
        strip_end(s, c).len() <= s.len(),
        strip_end(s, c) == s.take(strip_end(s, c).len() as int),
    decreases s.len(),
{
    if s.len() > 0 && s.last() == c {
        lemma_strip_end_is_prefix(s.drop_last(), c);
        assert(s.drop_last().take(strip_end(s, c).len() as int) == s.take(strip_end(s, c).len() as int));
    } else {
        assert(s.take(s.len() as int) == s);
    }
}

/// The characters of a string, in order.
pub fn to_chars(s: &str) -> (v: Vec<char>)
    ensures
        v@ == s@,
{
    let mut v: Vec<char> = Vec::new();
    for c in it: s.chars()
        invariant
            v@ == it.seq().take(it.index() as int),
            it.seq() == s@,
    {
        v.push(c);
    }
    v
}

/// `String::push`: appends one character.
#[verifier::external_body]
fn push_char(s: &mut String, c: char)
    ensures
        final(s)@ == old(s)@.push(c),
{
    s.push(c);
}

/// A string holding exactly the given characters.
pub fn from_chars(v: &Vec<char>) -> (s: String)
    ensures
        s@ == v@,
{
    let mut s = String::new();
    let mut i: usize = 0;
    while i < v.len()
        invariant
            i <= v.len(),
            s@ == v@.take(i as int),
        decreases v.len() - i,
    {
        push_char(&mut s, v[i]);
        assert(v@.take(i + 1) == v@.take(i as int).push(v@[i as int]));
        i += 1;
    }
    assert(v@.take(v.len() as int) == v@);
    s
}

/// The characters `lo..hi` of `v`.
pub fn slice_chars(v: &Vec<char>, lo: usize, hi: usize) -> (r: Vec<char>)
    requires
        lo <= hi <= v.len(),
    ensures
        r@ == v@.subrange(lo as int, hi as int),
{
    let mut r: Vec<char> = Vec::new();
    let mut i = lo;
    while i < hi
        invariant
            lo <= i <= hi <= v.len(),
            r@ == v@.subrange(lo as int, i as int),
        decreases hi - i,
    {
        r.push(v[i]);
        assert(v@.subrange(lo as int, i + 1) == v@.subrange(lo as int, i as int).push(v@[i as int]));
        i += 1;
    }
    r
}

/// Appends every character of `w` to `v`.
pub fn extend_chars(v: &mut Vec<char>, w: &Vec<char>)
    ensures
        final(v)@ == old(v)@ + w@,
{
    let mut i: usize = 0;
    while i < w.len()
        invariant
            i <= w.len(),
            v@ == old(v)@ + w@.take(i as int),
        decreases w.len() - i,
    {
        v.push(w[i]);
        assert(w@.take(i + 1) == w@.take(i as int).push(w@[i as int]));
        i += 1;
    }
    assert(w@.take(w.len() as int) == w@);
}

/// Whether two character sequences are the same.
pub fn chars_eq(a: &Vec<char>, b: &Vec<char>) -> (r: bool)
    ensures
        r == (a@ == b@),
{
    if a.len() != b.len() {
        return false;
    }
    let mut i: usize = 0;
    while i < a.len()
        invariant
            i <= a.len() == b.len(),
            a@.take(i as int) == b@.take(i as int),
        decreases a.len() - i,
    {
        if a[i] != b[i] {
            assert(a@[i as int] != b@[i as int]);
            return false;
        }
        assert(a@.take(i + 1) == a@.take(i as int).push(a@[i as int]));
        assert(b@.take(i + 1) == b@.take(i as int).push(b@[i as int]));
        i += 1;
    }
    assert(a@.take(a.len() as int) == a@);
    assert(b@.take(b.len() as int) == b@);
    true
}

/// Whether two strings hold the same characters.
pub fn str_eq(a: &str, b: &str) -> (r: bool)
    ensures
        r == (a@ == b@),
{
    chars_eq(&to_chars(a), &to_chars(b))
}

/// Whether `v` begins with `p`.
pub fn starts_with(v: &Vec<char>, p: &Vec<char>) -> (r: bool)
    ensures
        r == (p@.len() <= v@.len() && v@.take(p@.len() as int) == p@),
{
    if p.len() > v.len() {
        return false;
    }
    let head = slice_chars(v, 0, p.len());
    assert(v@.subrange(0, p@.len() as int) == v@.take(p@.len() as int));
    chars_eq(&head, p)
}

/// `v` without its trailing whitespace.
pub fn trim_end_chars(v: &Vec<char>) -> (r: Vec<char>)
    ensures
        r@ == trim_end(v@),
{
    let mut end = v.len();
    assert(v@.take(end as int) == v@);
    while end > 0 && is_whitespace(v[end - 1])
        invariant
            end <= v.len(),
            trim_end(v@) == trim_end(v@.take(end as int)),
        decreases end,
    {
        assert(v@.take(end as int).drop_last() == v@.take(end - 1));
        end -= 1;
    }
    let r = slice_chars(v, 0, end);
    assert(v@.subrange(0, end as int) == v@.take(end as int));
    r
}

/// `v` without its leading whitespace.
pub fn trim_start_chars(v: &Vec<char>) -> (r: Vec<char>)
    ensures
        r@ == trim_start(v@),
{
    let mut start: usize = 0;
    assert(v@.skip(0) == v@);
    while start < v.len() && is_whitespace(v[start])
        invariant
            start <= v.len(),
            trim_start(v@) == trim_start(v@.skip(start as int)),
        decreases v.len() - start,
    {
        assert(v@.skip(start as int).drop_first() == v@.skip(start + 1));
        start += 1;
    }
    let r = slice_chars(v, start, v.len());
    assert(v@.subrange(start as int, v.len() as int) == v@.skip(start as int));
    r
}

/// `v` without whitespace at either end.
pub fn trim_chars(v: &Vec<char>) -> (r: Vec<char>)
    ensures
        r@ == trim(v@),
{
    trim_end_chars(&trim_start_chars(v))
}

/// `v` without every trailing `c`.
pub fn strip_end_chars(v: &Vec<char>, c: char) -> (r: Vec<char>)
    ensures
        r@ == strip_end(v@, c),
{
    let mut end = v.len();
    assert(v@.take(end as int) == v@);
    while end > 0 && v[end - 1] == c
        invariant
            end <= v.len(),
            strip_end(v@, c) == strip_end(v@.take(end as int), c),
        decreases end,
    {
        assert(v@.take(end as int).drop_last() == v@.take(end - 1));
        end -= 1;
    }
    let r = slice_chars(v, 0, end);
    assert(v@.subrange(0, end as int) == v@.take(end as int));
    r
}

/// `str::trim`, as an owned string.
pub fn str_trim(s: &str) -> (r: String)
    ensures
        r@ == trim(s@),
{
    from_chars(&trim_chars(&to_chars(s)))
}

/// The pieces of `s` between occurrences of `sep`, as `str::split(sep)`
/// yields them: always at least one, and an empty last piece when `s` ends
/// with `sep`.
pub open spec fn split_on(s: Seq<char>, sep: char) -> Seq<Seq<char>>
    decreases s.len(),
{
    if s.len() == 0 {
        seq![Seq::<char>::empty()]
    } else {
        let r = split_on(s.drop_last(), sep);
        if s.last() == sep {
            r.push(Seq::<char>::empty())
        } else {
            r.update(r.len() - 1, r.last().push(s.last()))
        }
    }
}

pub proof fn lemma_split_on_nonempty(s: Seq<char>, sep: char)
    ensures
        split_on(s, sep).len() >= 1,
    decreases s.len(),
{
    if s.len() > 0 {
        lemma_split_on_nonempty(s.drop_last(), sep);
    }
}

/// No piece holds the separator.
pub proof fn lemma_split_on_pieces(s: Seq<char>, sep: char)
    ensures
        forall|i: int, j: int|
            0 <= i < split_on(s, sep).len() && 0 <= j < split_on(s, sep)[i].len() ==> #[trigger] split_on(
                s,
                sep,
            )[i][j] != sep,
    decreases s.len(),
{
    if s.len() > 0 {
        lemma_split_on_nonempty(s.drop_last(), sep);
        lemma_split_on_pieces(s.drop_last(), sep);
    }
}

/// Splits on every `sep`.
pub fn split_chars(v: &Vec<char>, sep: char) -> (r: Vec<Vec<char>>)
    ensures
        r@.len() == split_on(v@, sep).len(),
        forall|i: int| 0 <= i < r@.len() ==> #[trigger] r@[i]@ == split_on(v@, sep)[i],
{
    let mut out: Vec<Vec<char>> = Vec::new();
    let mut cur: Vec<char> = Vec::new();
    let mut i: usize = 0;
    assert(v@.take(0) == Seq::<char>::empty());
    while i < v.len()
        invariant
            i <= v.len(),
            out@.len() + 1 == split_on(v@.take(i as int), sep).len(),
            forall|j: int| 0 <= j < out@.len() ==> #[trigger] out@[j]@ == split_on(v@.take(i as int), sep)[j],
            cur@ == split_on(v@.take(i as int), sep).last(),
        decreases v.len() - i,
    {
        let ghost before = v@.take(i as int);
        proof {
            lemma_split_on_nonempty(before, sep);
            assert(v@.take(i + 1).drop_last() == before);
            assert(v@.take(i + 1).last() == v@[i as int]);
        }
        if v[i] == sep {
            out.push(cur);
            cur = Vec::new();
        } else {
            cur.push(v[i]);
        }
        i += 1;
    }
    out.push(cur);
    assert(v@.take(v.len() as int) == v@);
    out
}

} // verus!
