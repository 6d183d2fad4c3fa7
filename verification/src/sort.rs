//! Stable sorting of the merged event stream.
//!
//! Events are sorted by `(tick, rank)` where `rank` is the position in the
//! concatenated input; since ranks are distinct, ordinary merge sort on
//! this key is a stable sort by tick.  The executable sort is pinned to
//! [`sort_spec`], a pure recursive merge sort, so callers know the exact
//! output sequence, and separate lemmas give its order and membership
//! properties.

use vstd::prelude::*;

use crate::player::Event;

verus! {

/// One element of the merged stream, keyed for sorting: the absolute tick
/// and the element's position in the concatenated per-track streams.
#[derive(Debug, Copy, Clone, PartialEq, Eq, Structural)]
pub struct Keyed {
    /// Absolute tick of the event.
    pub tick: u64,
    /// Position in the concatenated input; distinct for distinct elements.
    pub rank: u64,
    /// The event itself.
    pub ev: Event,
}

/// Lexicographic order on `(tick, rank)`.
pub open spec fn key_le(a: Keyed, b: Keyed) -> bool {
    a.tick < b.tick || (a.tick == b.tick && a.rank <= b.rank)
}

/// Pairwise sortedness under [`key_le`].
pub open spec fn sorted(s: Seq<Keyed>) -> bool {
    forall|i: int, j: int| 0 <= i <= j < s.len() ==> key_le(s[i], s[j])
}

/// Merge of two sequences, preferring the left on ties.
pub open spec fn merge_spec(a: Seq<Keyed>, b: Seq<Keyed>) -> Seq<Keyed>
    decreases a.len() + b.len(),
{
    if a.len() == 0 {
        b
    } else if b.len() == 0 {
        a
    } else if key_le(a[0], b[0]) {
        seq![a[0]] + merge_spec(a.drop_first(), b)
    } else {
        seq![b[0]] + merge_spec(a, b.drop_first())
    }
}

/// Merge sort: the sequence the executable sort returns.
pub open spec fn sort_spec(s: Seq<Keyed>) -> Seq<Keyed>
    decreases s.len(),
{
    if s.len() <= 1 {
        s
    } else {
        let mid = s.len() as int / 2;
        merge_spec(sort_spec(s.take(mid)), sort_spec(s.skip(mid)))
    }
}

/// Merging preserves length.
pub proof fn lemma_merge_spec_len(a: Seq<Keyed>, b: Seq<Keyed>)
    ensures
        merge_spec(a, b).len() == a.len() + b.len(),
    decreases a.len() + b.len(),
{
    if a.len() == 0 || b.len() == 0 {
    } else if key_le(a[0], b[0]) {
        lemma_merge_spec_len(a.drop_first(), b);
    } else {
        lemma_merge_spec_len(a, b.drop_first());
    }
}

/// Sorting preserves length.
pub proof fn lemma_sort_spec_len(s: Seq<Keyed>)
    ensures
        sort_spec(s).len() == s.len(),
    decreases s.len(),
{
    if s.len() > 1 {
        let mid = s.len() as int / 2;
        lemma_sort_spec_len(s.take(mid));
        lemma_sort_spec_len(s.skip(mid));
        lemma_merge_spec_len(sort_spec(s.take(mid)), sort_spec(s.skip(mid)));
    }
}

/// Every element of a merge comes from one of the merged sequences.
pub proof fn lemma_merge_spec_contains(a: Seq<Keyed>, b: Seq<Keyed>, x: Keyed)
    requires
        merge_spec(a, b).contains(x),
    ensures
        a.contains(x) || b.contains(x),
    decreases a.len() + b.len(),
{
    if a.len() == 0 || b.len() == 0 {
    } else if key_le(a[0], b[0]) {
        if x == a[0] {
            assert(a.contains(x)) by { assert(a[0] == x) }
        } else {
            assert(merge_spec(a.drop_first(), b).contains(x)) by {
                let m = merge_spec(a, b);
                let i = choose|i: int| 0 <= i < m.len() && m[i] == x;
                assert(m[i] == (seq![a[0]] + merge_spec(a.drop_first(), b))[i]);
                assert(merge_spec(a.drop_first(), b)[i - 1] == x);
            }
            lemma_merge_spec_contains(a.drop_first(), b, x);
            if a.drop_first().contains(x) {
                let i = choose|i: int| 0 <= i < a.drop_first().len() && a.drop_first()[i] == x;
                assert(a[i + 1] == x);
            }
        }
    } else {
        if x == b[0] {
            assert(b.contains(x)) by { assert(b[0] == x) }
        } else {
            assert(merge_spec(a, b.drop_first()).contains(x)) by {
                let m = merge_spec(a, b);
                let i = choose|i: int| 0 <= i < m.len() && m[i] == x;
                assert(merge_spec(a, b.drop_first())[i - 1] == x);
            }
            lemma_merge_spec_contains(a, b.drop_first(), x);
            if b.drop_first().contains(x) {
                let i = choose|i: int| 0 <= i < b.drop_first().len() && b.drop_first()[i] == x;
                assert(b[i + 1] == x);
            }
        }
    }
}

/// Every element of the sorted sequence comes from the input.
pub proof fn lemma_sort_spec_contains(s: Seq<Keyed>, x: Keyed)
    requires
        sort_spec(s).contains(x),
    ensures
        s.contains(x),
    decreases s.len(),
{
    if s.len() > 1 {
        let mid = s.len() as int / 2;
        lemma_merge_spec_contains(sort_spec(s.take(mid)), sort_spec(s.skip(mid)), x);
        if sort_spec(s.take(mid)).contains(x) {
            lemma_sort_spec_contains(s.take(mid), x);
            let i = choose|i: int| 0 <= i < s.take(mid).len() && s.take(mid)[i] == x;
            assert(s[i] == x);
        } else {
            lemma_sort_spec_contains(s.skip(mid), x);
            let i = choose|i: int| 0 <= i < s.skip(mid).len() && s.skip(mid)[i] == x;
            assert(s[i + mid] == x);
        }
    }
}

/// A merge of sorted sequences is sorted.
pub proof fn lemma_merge_spec_sorted(a: Seq<Keyed>, b: Seq<Keyed>)
    requires
        sorted(a),
        sorted(b),
    ensures
        sorted(merge_spec(a, b)),
    decreases a.len() + b.len(),
{
    if a.len() == 0 || b.len() == 0 {
    } else {
        let m = merge_spec(a, b);
        if key_le(a[0], b[0]) {
            assert(sorted(a.drop_first()));
            lemma_merge_spec_sorted(a.drop_first(), b);
            let rest = merge_spec(a.drop_first(), b);
            lemma_merge_spec_len(a.drop_first(), b);
            assert forall|i: int, j: int| 0 <= i <= j < m.len() implies key_le(m[i], m[j]) by {
                if i == 0 && j > 0 {
                    assert(m[j] == rest[j - 1]);
                    lemma_merge_spec_contains(a.drop_first(), b, rest[j - 1]);
                    if a.drop_first().contains(rest[j - 1]) {
                        let k = choose|k: int|
                            0 <= k < a.drop_first().len() && a.drop_first()[k] == rest[j - 1];
                        assert(a[k + 1] == rest[j - 1]);
                        assert(key_le(a[0], a[k + 1]));
                    } else {
                        let k = choose|k: int| 0 <= k < b.len() && b[k] == rest[j - 1];
                        assert(key_le(b[0], b[k]));
                    }
                } else if i > 0 {
                    assert(m[i] == rest[i - 1] && m[j] == rest[j - 1]);
                }
            }
        } else {
            assert(sorted(b.drop_first()));
            lemma_merge_spec_sorted(a, b.drop_first());
            let rest = merge_spec(a, b.drop_first());
            lemma_merge_spec_len(a, b.drop_first());
            assert forall|i: int, j: int| 0 <= i <= j < m.len() implies key_le(m[i], m[j]) by {
                if i == 0 && j > 0 {
                    assert(m[j] == rest[j - 1]);
                    lemma_merge_spec_contains(a, b.drop_first(), rest[j - 1]);
                    if b.drop_first().contains(rest[j - 1]) {
                        let k = choose|k: int|
                            0 <= k < b.drop_first().len() && b.drop_first()[k] == rest[j - 1];
                        assert(b[k + 1] == rest[j - 1]);
                        assert(key_le(b[0], b[k + 1]));
                    } else {
                        let k = choose|k: int| 0 <= k < a.len() && a[k] == rest[j - 1];
                        assert(key_le(a[0], a[k]));
                    }
                } else if i > 0 {
                    assert(m[i] == rest[i - 1] && m[j] == rest[j - 1]);
                }
            }
        }
    }
}

/// The sorted sequence is sorted.
pub proof fn lemma_sort_spec_sorted(s: Seq<Keyed>)
    ensures
        sorted(sort_spec(s)),
    decreases s.len(),
{
    if s.len() > 1 {
        let mid = s.len() as int / 2;
        lemma_sort_spec_sorted(s.take(mid));
        lemma_sort_spec_sorted(s.skip(mid));
        lemma_merge_spec_sorted(sort_spec(s.take(mid)), sort_spec(s.skip(mid)));
    }
}

/// Is `a` ordered no later than `b`?
fn key_le_exec(a: &Keyed, b: &Keyed) -> (r: bool)
    ensures
        r == key_le(*a, *b),
{
    a.tick < b.tick || (a.tick == b.tick && a.rank <= b.rank)
}

/// Merge two sequences, preferring the left on ties.
fn merge(a: Vec<Keyed>, b: Vec<Keyed>) -> (r: Vec<Keyed>)
    ensures
        r@ == merge_spec(a@, b@),
{
    let mut r: Vec<Keyed> = Vec::new();
    let mut i: usize = 0;
    let mut j: usize = 0;
    proof {
        assert(a@.skip(0) =~= a@);
        assert(b@.skip(0) =~= b@);
        assert(Seq::<Keyed>::empty() + merge_spec(a@, b@) =~= merge_spec(a@, b@));
    }
    while i < a.len() || j < b.len()
        invariant
            i <= a.len(),
            j <= b.len(),
            merge_spec(a@, b@) == r@ + merge_spec(a@.skip(i as int), b@.skip(j as int)),
        decreases a.len() - i + b.len() - j,
    {
        let ghost ra = a@.skip(i as int);
        let ghost rb = b@.skip(j as int);
        if i < a.len() && (j >= b.len() || key_le_exec(&a[i], &b[j])) {
            r.push(a[i]);
            i = i + 1;
            proof {
                assert(ra[0] == a@[i - 1]);
                assert(ra.drop_first() =~= a@.skip(i as int));
                if rb.len() == 0 {
                    assert(merge_spec(ra, rb) =~= seq![ra[0]] + merge_spec(
                        ra.drop_first(),
                        rb,
                    )) by {
                        assert(ra =~= seq![ra[0]] + ra.drop_first());
                        assert(merge_spec(ra.drop_first(), rb) == ra.drop_first());
                    }
                }
                assert(r@ + merge_spec(a@.skip(i as int), b@.skip(j as int)) =~= (r@.drop_last()
                    + (seq![ra[0]] + merge_spec(ra.drop_first(), rb))));
            }
        } else {
            r.push(b[j]);
            j = j + 1;
            proof {
                assert(rb[0] == b@[j - 1]);
                assert(rb.drop_first() =~= b@.skip(j as int));
                if ra.len() == 0 {
                    assert(merge_spec(ra, rb) =~= seq![rb[0]] + merge_spec(
                        ra,
                        rb.drop_first(),
                    )) by {
                        assert(rb =~= seq![rb[0]] + rb.drop_first());
                        assert(merge_spec(ra, rb.drop_first()) == rb.drop_first());
                    }
                }
                assert(r@ + merge_spec(a@.skip(i as int), b@.skip(j as int)) =~= (r@.drop_last()
                    + (seq![rb[0]] + merge_spec(ra, rb.drop_first()))));
            }
        }
    }
    proof {
        assert(a@.skip(i as int) =~= Seq::<Keyed>::empty());
        assert(b@.skip(j as int) =~= Seq::<Keyed>::empty());
        assert(r@ + merge_spec(a@.skip(i as int), b@.skip(j as int)) =~= r@);
    }
    r
}

/// Sort the merged stream by `(tick, rank)`: a stable sort by tick.
pub fn merge_sort(v: Vec<Keyed>) -> (r: Vec<Keyed>)
    ensures
        r@ == sort_spec(v@),
    decreases v@.len(),
{
    if v.len() <= 1 {
        return v;
    }
    let ghost orig = v@;
    let mid = v.len() / 2;
    let mut v = v;
    let right = v.split_off(mid);
    proof {
        assert(v@ =~= orig.take(mid as int));
        assert(right@ =~= orig.skip(mid as int));
    }
    let ls = merge_sort(v);
    let rs = merge_sort(right);
    merge(ls, rs)
}

} // verus!
