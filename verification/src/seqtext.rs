//! Splitting character sequences: the pieces that `str::split`, and the
//! first or last piece of it, give.

use vstd::prelude::*;

verus! {

/// The part of `s` before its first `c` (all of `s` if it has none): what
/// `s.split(c).next()` gives.
pub open spec fn before_first(s: Seq<char>, c: char) -> Seq<char>
    decreases s.len(),
{
    if s.len() == 0 {
        s
    } else if s[0] == c {
        Seq::empty()
    } else {
        seq![s[0]] + before_first(s.drop_first(), c)
    }
}

/// The part of `s` after its last `c` (all of `s` if it has none): what
/// `s.split(c).last()` gives.
pub open spec fn after_last(s: Seq<char>, c: char) -> Seq<char>
    decreases s.len(),
{
    if s.len() == 0 {
        s
    } else if s.last() == c {
        Seq::empty()
    } else {
        after_last(s.drop_last(), c).push(s.last())
    }
}

/// The pieces of `s` between the occurrences of `c`, as `s.split(c)` gives
/// them: one more piece than there are `c`s, empty pieces included.
pub open spec fn split_on(s: Seq<char>, c: char) -> Seq<Seq<char>>
    decreases s.len(),
{
    if s.len() == 0 {
        seq![Seq::empty()]
    } else if s.last() == c {
        split_on(s.drop_last(), c).push(Seq::empty())
    } else {
        let p = split_on(s.drop_last(), c);
        p.update(p.len() - 1, p.last().push(s.last()))
    }
}

/// `split_on` always gives at least one piece.
pub proof fn lemma_split_nonempty(s: Seq<char>, c: char)
    ensures
        split_on(s, c).len() >= 1,
    decreases s.len(),
{
    if s.len() > 0 {
        lemma_split_nonempty(s.drop_last(), c);
    }
}

/// A sequence with no `c` splits into itself alone.
pub proof fn lemma_split_no_sep(s: Seq<char>, c: char)
    requires
        forall|i: int| 0 <= i < s.len() ==> #[trigger] s[i] != c,
    ensures
        split_on(s, c) == seq![s],
    decreases s.len(),
{
    if s.len() > 0 {
        assert forall|i: int| 0 <= i < s.drop_last().len() implies #[trigger] s.drop_last()[i]
            != c by {
            assert(s.drop_last()[i] == s[i]);
        }
        lemma_split_no_sep(s.drop_last(), c);
        assert(s[s.len() - 1] != c);
        assert(s.drop_last().push(s.last()) =~= s);
        assert(seq![s.drop_last()].update(0, s) =~= seq![s]);
    } else {
        assert(s =~= Seq::<char>::empty());
    }
}

/// Splitting at one `c` splits the two sides apart.
pub proof fn lemma_split_at(a: Seq<char>, b: Seq<char>, c: char)
    ensures
        split_on(a + seq![c] + b, c) == split_on(a, c) + split_on(b, c),
    decreases b.len(),
{
    let s = a + seq![c] + b;
    if b.len() == 0 {
        assert(s.drop_last() =~= a);
        assert(split_on(b, c) =~= seq![Seq::<char>::empty()]);
        assert(split_on(a, c).push(Seq::empty()) =~= split_on(a, c) + split_on(b, c));
    } else {
        assert(s.drop_last() =~= a + seq![c] + b.drop_last());
        assert(s.last() == b.last());
        lemma_split_at(a, b.drop_last(), c);
        lemma_split_nonempty(b.drop_last(), c);
        lemma_split_nonempty(a, c);
        let p = split_on(a, c) + split_on(b.drop_last(), c);
        if b.last() == c {
            assert(p.push(Seq::empty()) =~= split_on(a, c) + split_on(b, c));
        } else {
            let q = split_on(b.drop_last(), c);
            assert(p.update(p.len() - 1, p.last().push(b.last())) =~= split_on(a, c) + q.update(
                q.len() - 1,
                q.last().push(b.last()),
            ));
        }
    }
}

/// Where `s` has no `c` before `i`, and `s[i]` is `c` or `i` is its end,
/// the part before the first `c` is `s[..i]`.
pub proof fn lemma_before_first(s: Seq<char>, c: char, i: int)
    requires
        0 <= i <= s.len(),
        forall|j: int| 0 <= j < i ==> #[trigger] s[j] != c,
        i == s.len() || s[i] == c,
    ensures
        before_first(s, c) == s.take(i),
    decreases s.len(),
{
    if s.len() > 0 {
        if i == 0 {
            assert(s.take(0) =~= Seq::<char>::empty());
        } else {
            assert forall|j: int| 0 <= j < i - 1 implies #[trigger] s.drop_first()[j] != c by {
                assert(s.drop_first()[j] == s[j + 1]);
            }
            lemma_before_first(s.drop_first(), c, i - 1);
            assert(seq![s[0]] + s.drop_first().take(i - 1) =~= s.take(i));
        }
    } else {
        assert(s.take(i) =~= s);
    }
}

/// Where `s` has no `c` from `i` on, and `s[i - 1]` is `c` or `i` is 0, the
/// part after the last `c` is `s[i..]`.
pub proof fn lemma_after_last(s: Seq<char>, c: char, i: int)
    requires
        0 <= i <= s.len(),
        forall|j: int| i <= j < s.len() ==> #[trigger] s[j] != c,
        i == 0 || s[i - 1] == c,
    ensures
        after_last(s, c) == s.skip(i),
    decreases s.len(),
{
    if s.len() > 0 {
        if i == s.len() {
            assert(s.skip(i) =~= Seq::<char>::empty());
        } else {
            assert forall|j: int| i <= j < s.drop_last().len() implies #[trigger] s.drop_last()[j]
                != c by {
                assert(s.drop_last()[j] == s[j]);
            }
            assert(s[s.len() - 1] != c);
            lemma_after_last(s.drop_last(), c, i);
            assert(s.drop_last().skip(i).push(s.last()) =~= s.skip(i));
        }
    } else {
        assert(s.skip(i) =~= s);
    }
}

/// The first position in `cs[lo..hi]` that holds `c`, or `hi` if none does.
pub fn find_first(cs: &Vec<char>, c: char, lo: usize, hi: usize) -> (r: usize)
    requires
        lo <= hi <= cs@.len(),
    ensures
        lo <= r <= hi,
        forall|j: int| lo <= j < r ==> #[trigger] cs@[j] != c,
        r == hi || cs@[r as int] == c,
{
    let mut i = lo;
    while i < hi
        invariant
            lo <= i <= hi <= cs@.len(),
            forall|j: int| lo <= j < i ==> #[trigger] cs@[j] != c,
        decreases hi - i,
    {
        if cs[i] == c {
            return i;
        }
        i = i + 1;
    }
    i
}

/// The position just after the last `c` in `cs[lo..hi]`, or `lo` if none is
/// there.
pub fn find_after_last(cs: &Vec<char>, c: char, lo: usize, hi: usize) -> (r: usize)
    requires
        lo <= hi <= cs@.len(),
    ensures
        lo <= r <= hi,
        forall|j: int| r <= j < hi ==> #[trigger] cs@[j] != c,
        r == lo || cs@[r - 1] == c,
{
    let mut i = hi;
    while i > lo
        invariant
            lo <= i <= hi <= cs@.len(),
            forall|j: int| i <= j < hi ==> #[trigger] cs@[j] != c,
        decreases i,
    {
        if cs[i - 1] == c {
            return i;
        }
        i = i - 1;
    }
    i
}

/// `before_first` of `cs[lo..hi]` is `cs[lo..find_first(..)]`.
pub proof fn lemma_find_first_piece(cs: Seq<char>, c: char, lo: int, hi: int, r: int)
    requires
        0 <= lo <= r <= hi <= cs.len(),
        forall|j: int| lo <= j < r ==> #[trigger] cs[j] != c,
        r == hi || cs[r] == c,
    ensures
        before_first(cs.subrange(lo, hi), c) == cs.subrange(lo, r),
{
    let s = cs.subrange(lo, hi);
    assert forall|j: int| 0 <= j < r - lo implies #[trigger] s[j] != c by {
        assert(s[j] == cs[lo + j]);
    }
    lemma_before_first(s, c, r - lo);
    assert(s.take(r - lo) =~= cs.subrange(lo, r));
}

/// `after_last` of `cs[lo..hi]` is `cs[find_after_last(..)..hi]`.
pub proof fn lemma_find_after_last_piece(cs: Seq<char>, c: char, lo: int, hi: int, r: int)
    requires
        0 <= lo <= r <= hi <= cs.len(),
        forall|j: int| r <= j < hi ==> #[trigger] cs[j] != c,
        r == lo || cs[r - 1] == c,
    ensures
        after_last(cs.subrange(lo, hi), c) == cs.subrange(r, hi),
{
    let s = cs.subrange(lo, hi);
    assert forall|j: int| r - lo <= j < s.len() implies #[trigger] s[j] != c by {
        assert(s[j] == cs[lo + j]);
    }
    lemma_after_last(s, c, r - lo);
    assert(s.skip(r - lo) =~= cs.subrange(r, hi));
}

} // verus!
