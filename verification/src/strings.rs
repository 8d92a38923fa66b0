//! Character-level text operations: Unicode white space, trimming, splitting
//! into lines and fields, and searching.

use vstd::prelude::*;
use crate::text::push_char;

verus! {

/// The Unicode `White_Space` characters.
pub open spec fn is_ws(c: char) -> bool {
    ||| c == '\t' || c == '\n' || c == '\u{0B}' || c == '\u{0C}' || c == '\r' || c == ' '
    ||| c == '\u{85}' || c == '\u{A0}' || c == '\u{1680}'
    ||| ('\u{2000}' <= c && c <= '\u{200A}')
    ||| c == '\u{2028}' || c == '\u{2029}' || c == '\u{202F}' || c == '\u{205F}' || c == '\u{3000}'
}

/// Whether `c` is Unicode white space.
pub fn is_space(c: char) -> (r: bool)
    ensures
        r == is_ws(c),
{
    c == '\t' || c == '\n' || c == '\u{0B}' || c == '\u{0C}' || c == '\r' || c == ' '
        || c == '\u{85}' || c == '\u{A0}' || c == '\u{1680}'
        || ('\u{2000}' <= c && c <= '\u{200A}')
        || c == '\u{2028}' || c == '\u{2029}' || c == '\u{202F}' || c == '\u{205F}' || c == '\u{3000}'
}

/// `s` without its leading white space.
pub open spec fn trim_start(s: Seq<char>) -> Seq<char>
    decreases s.len(),
{
    if s.len() > 0 && is_ws(s[0]) { trim_start(s.drop_first()) } else { s }
}

/// `s` without its trailing white space.
pub open spec fn trim_end(s: Seq<char>) -> Seq<char>
    decreases s.len(),
{
    if s.len() > 0 && is_ws(s.last()) { trim_end(s.drop_last()) } else { s }
}

/// `s` without leading and trailing white space.
pub open spec fn trim(s: Seq<char>) -> Seq<char> {
    trim_end(trim_start(s))
}

/// `s` without leading and trailing occurrences of `c`.
pub open spec fn trim_char(s: Seq<char>, c: char) -> Seq<char> {
    trim_char_end(trim_char_start(s, c), c)
}

/// `s` without leading occurrences of `c`.
pub open spec fn trim_char_start(s: Seq<char>, c: char) -> Seq<char>
    decreases s.len(),
{
    if s.len() > 0 && s[0] == c { trim_char_start(s.drop_first(), c) } else { s }
}

/// `s` without trailing occurrences of `c`.
pub open spec fn trim_char_end(s: Seq<char>, c: char) -> Seq<char>
    decreases s.len(),
{
    if s.len() > 0 && s.last() == c { trim_char_end(s.drop_last(), c) } else { s }
}

/// The pieces of `s` between occurrences of `sep` (one piece more than separators).
pub open spec fn split_on(s: Seq<char>, sep: char) -> Seq<Seq<char>>
    decreases s.len(),
{
    if s.len() == 0 {
        seq![Seq::empty()]
    } else {
        let p = split_on(s.drop_last(), sep);
        if s.last() == sep {
            p.push(Seq::empty())
        } else {
            p.update(p.len() - 1, p.last().push(s.last()))
        }
    }
}

/// `s` without one trailing carriage return.
pub open spec fn strip_cr(s: Seq<char>) -> Seq<char> {
    if s.len() > 0 && s.last() == '\r' { s.drop_last() } else { s }
}

/// The lines of `s`: split at `\n`, a `\r` before it dropped, and no empty
/// line after a final `\n`.
pub open spec fn lines_of(s: Seq<char>) -> Seq<Seq<char>> {
    if s.len() == 0 {
        Seq::empty()
    } else {
        let p = split_on(s, '\n');
        let q = if s.last() == '\n' { p.drop_last() } else { p };
        q.map_values(|l: Seq<char>| strip_cr(l))
    }
}

/// The index of the first occurrence of `c` in `s`, if any.
pub open spec fn find_char(s: Seq<char>, c: char) -> Option<int>
    decreases s.len(),
{
    if s.len() == 0 {
        None
    } else {
        match find_char(s.drop_last(), c) {
            Some(i) => Some(i),
            None => if s.last() == c { Some(s.len() - 1) } else { None },
        }
    }
}

/// Splitting an empty prefix gives one empty piece; each further character
/// either starts a new piece or extends the last one.
pub proof fn lemma_split_on_len(s: Seq<char>, sep: char)
    ensures
        split_on(s, sep).len() >= 1,
    decreases s.len(),
{
    if s.len() > 0 {
        lemma_split_on_len(s.drop_last(), sep);
    }
}

/// Splitting two texts joined at a separator splits each of them.
pub proof fn lemma_split_join(a: Seq<char>, b: Seq<char>, sep: char)
    ensures
        split_on(a + seq![sep] + b, sep) == split_on(a, sep) + split_on(b, sep),
    decreases b.len(),
{
    let j = a + seq![sep] + b;
    if b.len() == 0 {
        assert(j.drop_last() =~= a);
        assert(split_on(a, sep).push(Seq::empty()) =~= split_on(a, sep) + split_on(b, sep));
    } else {
        let b2 = b.drop_last();
        lemma_split_join(a, b2, sep);
        lemma_split_on_len(b2, sep);
        assert(j.drop_last() =~= a + seq![sep] + b2);
        let p = split_on(a, sep);
        let q = split_on(b2, sep);
        if b.last() == sep {
            assert((p + q).push(Seq::empty()) =~= p + q.push(Seq::empty()));
        } else {
            assert((p + q).update((p + q).len() - 1, (p + q).last().push(b.last()))
                =~= p + q.update(q.len() - 1, q.last().push(b.last())));
        }
    }
}

/// A text without the separator is a single piece.
pub proof fn lemma_split_single(s: Seq<char>, sep: char)
    requires
        !s.contains(sep),
    ensures
        split_on(s, sep) == seq![s],
    decreases s.len(),
{
    if s.len() > 0 {
        assert(!s.drop_last().contains(sep)) by {
            if s.drop_last().contains(sep) {
                let i = choose|i: int| 0 <= i < s.drop_last().len() && s.drop_last()[i] == sep;
                assert(s[i] == sep);
            }
        }
        lemma_split_single(s.drop_last(), sep);
        assert(s.last() != sep) by { assert(s[s.len() - 1] == s.last()); }
        assert(s.drop_last().push(s.last()) =~= s);
        assert(seq![s.drop_last()].update(0, s) =~= seq![s]);
    } else {
        assert(s =~= Seq::<char>::empty());
    }
}

/// The positions of `s[lo..hi]` once white space is trimmed from both ends.
pub fn trim_bounds(v: &Vec<char>, lo: usize, hi: usize) -> (r: (usize, usize))
    requires
        lo <= hi <= v@.len(),
    ensures
        lo <= r.0 <= r.1 <= hi,
        v@.subrange(r.0 as int, r.1 as int) == trim(v@.subrange(lo as int, hi as int)),
{
    let mut a = lo;
    while a < hi && is_space(v[a])
        invariant
            lo <= a <= hi <= v@.len(),
            trim_start(v@.subrange(lo as int, hi as int)) == trim_start(v@.subrange(a as int, hi as int)),
        decreases hi - a,
    {
        assert(v@.subrange(a as int, hi as int).drop_first() =~= v@.subrange(a + 1, hi as int));
        a = a + 1;
    }
    let mut b = hi;
    assert(trim_start(v@.subrange(lo as int, hi as int)) == v@.subrange(a as int, hi as int));
    while b > a && is_space(v[b - 1])
        invariant
            lo <= a <= b <= hi <= v@.len(),
            trim(v@.subrange(lo as int, hi as int)) == trim_end(v@.subrange(a as int, b as int)),
        decreases b - a,
    {
        assert(v@.subrange(a as int, b as int).drop_last() =~= v@.subrange(a as int, b - 1));
        b = b - 1;
    }
    (a, b)
}

/// The positions of `s[lo..hi]` once a character is trimmed from both ends.
pub fn trim_char_bounds(v: &Vec<char>, lo: usize, hi: usize, c: char) -> (r: (usize, usize))
    requires
        lo <= hi <= v@.len(),
    ensures
        lo <= r.0 <= r.1 <= hi,
        v@.subrange(r.0 as int, r.1 as int) == trim_char(v@.subrange(lo as int, hi as int), c),
{
    let mut a = lo;
    while a < hi && v[a] == c
        invariant
            lo <= a <= hi <= v@.len(),
            trim_char_start(v@.subrange(lo as int, hi as int), c) == trim_char_start(v@.subrange(a as int, hi as int), c),
        decreases hi - a,
    {
        assert(v@.subrange(a as int, hi as int).drop_first() =~= v@.subrange(a + 1, hi as int));
        a = a + 1;
    }
    let mut b = hi;
    assert(trim_char_start(v@.subrange(lo as int, hi as int), c) == v@.subrange(a as int, hi as int));
    while b > a && v[b - 1] == c
        invariant
            lo <= a <= b <= hi <= v@.len(),
            trim_char(v@.subrange(lo as int, hi as int), c) == trim_char_end(v@.subrange(a as int, b as int), c),
        decreases b - a,
    {
        assert(v@.subrange(a as int, b as int).drop_last() =~= v@.subrange(a as int, b - 1));
        b = b - 1;
    }
    (a, b)
}

/// The first position of `c` in `v[lo..hi]`, counted from `lo`.
pub fn find_in(v: &Vec<char>, lo: usize, hi: usize, c: char) -> (r: Option<usize>)
    requires
        lo <= hi <= v@.len(),
    ensures
        match r {
            Some(i) => find_char(v@.subrange(lo as int, hi as int), c) == Some(i as int) && i < hi - lo,
            None => find_char(v@.subrange(lo as int, hi as int), c) is None,
        },
{
    let mut i = lo;
    assert(v@.subrange(lo as int, lo as int) =~= Seq::<char>::empty());
    while i < hi
        invariant
            lo <= i <= hi <= v@.len(),
            find_char(v@.subrange(lo as int, i as int), c) is None,
        decreases hi - i,
    {
        assert(v@.subrange(lo as int, i + 1).drop_last() =~= v@.subrange(lo as int, i as int));
        assert(v@.subrange(lo as int, hi as int).take(i - lo) =~= v@.subrange(lo as int, i as int));
        if v[i] == c {
            proof { lemma_find_prefix(v@.subrange(lo as int, hi as int), (i - lo) as int, c); }
            return Some(i - lo);
        }
        i = i + 1;
    }
    proof { assert(v@.subrange(lo as int, hi as int) =~= v@.subrange(lo as int, i as int)); }
    None
}

/// If `c` first occurs at `k`, finding it in the whole sequence gives `k`.
pub proof fn lemma_find_prefix(s: Seq<char>, k: int, c: char)
    requires
        0 <= k < s.len(),
        s[k] == c,
        find_char(s.take(k), c) is None,
    ensures
        find_char(s, c) == Some(k),
    decreases s.len(),
{
    if k < s.len() - 1 {
        assert(s.drop_last().take(k) =~= s.take(k));
        lemma_find_prefix(s.drop_last(), k, c);
    } else {
        assert(s.drop_last() =~= s.take(k));
    }
}

/// A string of the characters `v[lo..hi]`.
pub fn string_of(v: &Vec<char>, lo: usize, hi: usize) -> (r: String)
    requires
        lo <= hi <= v@.len(),
    ensures
        r@ == v@.subrange(lo as int, hi as int),
{
    let mut s = String::new();
    let mut i = lo;
    while i < hi
        invariant
            lo <= i <= hi <= v@.len(),
            s@ == v@.subrange(lo as int, i as int),
        decreases hi - i,
    {
        push_char(&mut s, v[i]);
        i = i + 1;
        assert(s@ =~= v@.subrange(lo as int, i as int));
    }
    s
}

/// The bounds of the lines of `v`, in order.
#[verifier::rlimit(50)]
pub fn line_bounds(v: &Vec<char>) -> (r: Vec<(usize, usize)>)
    ensures
        r@.len() == lines_of(v@).len(),
        forall|i: int| 0 < i < r@.len() ==> r@[i - 1].1 < (#[trigger] r@[i]).0,
        forall|i: int| 0 <= i < r@.len() ==> {
            &&& r@[i].0 <= r@[i].1 <= v@.len()
            &&& #[trigger] lines_of(v@)[i] == v@.subrange(r@[i].0 as int, r@[i].1 as int)
        },
{
    let mut out: Vec<(usize, usize)> = Vec::new();
    if v.len() == 0 {
        return out;
    }
    let mut start: usize = 0;
    let mut i: usize = 0;
    assert(v@.take(0) =~= Seq::<char>::empty());
    while i < v.len()
        invariant
            start <= i <= v@.len(),
            split_on(v@.take(i as int), '\n').len() == out@.len() + 1,
            forall|j: int| 0 <= j < out@.len() ==> (#[trigger] out@[j]).0 <= out@[j].1 <= v@.len(),
            forall|j: int| 0 < j < out@.len() ==> out@[j - 1].1 < (#[trigger] out@[j]).0,
            out@.len() > 0 ==> out@.last().1 < start,
            forall|j: int| 0 <= j < out@.len() ==>
                split_on(v@.take(i as int), '\n')[j] == v@.subrange((#[trigger] out@[j]).0 as int, out@[j].1 as int),
            split_on(v@.take(i as int), '\n').last() == v@.subrange(start as int, i as int),
        decreases v@.len() - i,
    {
        let ghost p = split_on(v@.take(i as int), '\n');
        let ghost old_out = out@;
        let ghost ii = i as int;
        assert(v@.take(i + 1).drop_last() =~= v@.take(i as int));
        assert(v@.take(i + 1).last() == v@[i as int]);
        if v[i] == '\n' {
            out.push((start, i));
            start = i + 1;
            assert(v@.subrange(start as int, i + 1) =~= Seq::<char>::empty());
        } else {
            assert(v@.subrange(start as int, i + 1) =~= v@.subrange(start as int, i as int).push(v@[i as int]));
        }
        i = i + 1;
        proof {
            let np = split_on(v@.take(i as int), '\n');
            if v@[ii] == '\n' {
                assert(np == p.push(Seq::<char>::empty()));
            } else {
                assert(np == p.update(p.len() - 1, p.last().push(v@[ii])));
            }
            assert forall|j: int| 0 <= j < out@.len() implies
                (#[trigger] out@[j]).0 <= out@[j].1 <= v@.len()
                && split_on(v@.take(i as int), '\n')[j] == v@.subrange(out@[j].0 as int, out@[j].1 as int) by {
                if j < old_out.len() {
                    assert(out@[j] == old_out[j]);
                    assert(p[j] == v@.subrange(old_out[j].0 as int, old_out[j].1 as int));
                }
            }
        }
    }
    assert(v@.take(v@.len() as int) =~= v@);
    let ghost p = split_on(v@, '\n');
    let ghost before = out@;
    if v[v.len() - 1] != '\n' {
        out.push((start, v.len()));
    }
    proof {
        let q = if v@.last() == '\n' { p.drop_last() } else { p };
        assert(q.len() == out@.len());
        assert(lines_of(v@) == q.map_values(|l: Seq<char>| strip_cr(l)));
        assert forall|j: int| 0 <= j < out@.len() implies {
            &&& (#[trigger] out@[j]).0 <= out@[j].1 <= v@.len()
            &&& strip_cr(v@.subrange(out@[j].0 as int, out@[j].1 as int)) == lines_of(v@)[j]
        } by {
            if j < before.len() {
                assert(out@[j] == before[j]);
                assert(p[j] == v@.subrange(before[j].0 as int, before[j].1 as int));
            } else {
                assert(q[j] == p.last());
            }
            assert(q[j] == v@.subrange(out@[j].0 as int, out@[j].1 as int));
        }
    }
    let mut r: Vec<(usize, usize)> = Vec::new();
    let mut k: usize = 0;
    while k < out.len()
        invariant
            k <= out@.len(),
            v@.len() > 0,
            out@.len() == lines_of(v@).len(),
            forall|j: int| 0 <= j < out@.len() ==> (#[trigger] out@[j]).0 <= out@[j].1 <= v@.len(),
            forall|j: int| 0 <= j < out@.len() ==> strip_cr(v@.subrange((#[trigger] out@[j]).0 as int, out@[j].1 as int))
                == lines_of(v@)[j],
            forall|j: int| 0 < j < out@.len() ==> out@[j - 1].1 < (#[trigger] out@[j]).0,
            forall|j: int| 0 <= j < k ==> (#[trigger] r@[j]).0 == out@[j].0 && r@[j].1 <= out@[j].1,
            r@.len() == k,
            forall|j: int| 0 <= j < k ==> (#[trigger] r@[j]).0 <= r@[j].1 <= v@.len(),
            forall|j: int| 0 <= j < k ==> lines_of(v@)[j] == v@.subrange((#[trigger] r@[j]).0 as int, r@[j].1 as int),
        decreases out@.len() - k,
    {
        let (a, b) = out[k];
        assert(out@[k as int] == (a, b));
        if b > a && v[b - 1] == '\r' {
            assert(v@.subrange(a as int, b as int).drop_last() =~= v@.subrange(a as int, b - 1));
            r.push((a, b - 1));
        } else {
            r.push((a, b));
        }
        assert(r@[k as int] == r@.last());
        k = k + 1;
    }
    assert forall|i: int| 0 < i < r@.len() implies r@[i - 1].1 < (#[trigger] r@[i]).0 by {
        assert(out@[i] == out@[i]);
        assert(r@[i - 1] == r@[i - 1]);
        assert(out@[i - 1] == out@[i - 1]);
    }
    assert forall|i: int| 0 <= i < r@.len() implies {
        &&& r@[i].0 <= r@[i].1 <= v@.len()
        &&& #[trigger] lines_of(v@)[i] == v@.subrange(r@[i].0 as int, r@[i].1 as int)
    } by {
        assert(r@[i] == r@[i]);
    }
    r
}

} // verus!
