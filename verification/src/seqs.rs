//! First-match searches over sequences, shared by the catalog join, the
//! diff-engine state table and the watch store.

use vstd::prelude::*;

verus! {

/// Index of the first element satisfying `p`, or -1 if there is none.
pub open spec fn first_where<T>(s: Seq<T>, p: spec_fn(T) -> bool) -> int
    decreases s.len(),
{
    if s.len() == 0 {
        -1
    } else if p(s[0]) {
        0
    } else {
        let r = first_where(s.drop_first(), p);
        if r == -1 {
            -1
        } else {
            r + 1
        }
    }
}

/// `first_where` finds the first satisfying index: nothing matches before
/// it, and -1 means nothing matches at all.
pub proof fn lemma_first_where<T>(s: Seq<T>, p: spec_fn(T) -> bool)
    ensures
        first_where(s, p) == -1 ==> forall|i: int| 0 <= i < s.len() ==> !#[trigger] p(s[i]),
        first_where(s, p) != -1 ==> {
            &&& 0 <= first_where(s, p) < s.len()
            &&& p(s[first_where(s, p)])
            &&& forall|i: int| 0 <= i < first_where(s, p) ==> !#[trigger] p(s[i])
        },
    decreases s.len(),
{
    if s.len() > 0 && !p(s[0]) {
        lemma_first_where(s.drop_first(), p);
        assert(forall|i: int|
            1 <= i < s.len() ==> #[trigger] p(s[i]) == p(s.drop_first()[i - 1]));
    }
}

/// The elements satisfying `p`, in order.
pub open spec fn keep_where<T>(s: Seq<T>, p: spec_fn(T) -> bool) -> Seq<T>
    decreases s.len(),
{
    if s.len() == 0 {
        Seq::empty()
    } else {
        let rest = keep_where(s.drop_first(), p);
        if p(s[0]) {
            seq![s[0]] + rest
        } else {
            rest
        }
    }
}

/// Everything `keep_where` keeps comes from the input and satisfies the
/// predicate, and nothing is added.
pub proof fn lemma_keep_where_contains<T>(s: Seq<T>, p: spec_fn(T) -> bool)
    ensures
        forall|x: T| #[trigger] keep_where(s, p).contains(x) ==> s.contains(x) && p(x),
        keep_where(s, p).len() <= s.len(),
    decreases s.len(),
{
    if s.len() > 0 {
        lemma_keep_where_contains(s.drop_first(), p);
        let r = keep_where(s, p);
        let rest = keep_where(s.drop_first(), p);
        assert forall|x: T| #[trigger] r.contains(x) implies s.contains(x) && p(x) by {
            let i = choose|i: int| 0 <= i < r.len() && r[i] == x;
            if p(s[0]) && i == 0 {
                assert(s[0] == x);
                assert(s.contains(x));
            } else {
                let ri = if p(s[0]) {
                    i - 1
                } else {
                    i
                };
                assert(rest[ri] == x);
                assert(rest.contains(x));
                let j = choose|j: int| 0 <= j < s.drop_first().len() && s.drop_first()[j] == x;
                assert(s[j + 1] == x);
                assert(s.contains(x));
            }
        }
    }
}

/// Pairwise distinctness of a derived key.
pub open spec fn unique_by<T, K>(s: Seq<T>, key: spec_fn(T) -> K) -> bool {
    forall|i: int, j: int|
        0 <= i < j < s.len() ==> #[trigger] key(s[i]) != #[trigger] key(s[j])
}

/// Filtering keeps keys pairwise distinct.
pub proof fn lemma_keep_where_unique_by<T, K>(
    s: Seq<T>,
    p: spec_fn(T) -> bool,
    key: spec_fn(T) -> K,
)
    requires
        unique_by(s, key),
    ensures
        unique_by(keep_where(s, p), key),
    decreases s.len(),
{
    if s.len() > 0 {
        let tail = s.drop_first();
        assert forall|i: int, j: int| 0 <= i < j < tail.len() implies #[trigger] key(tail[i])
            != #[trigger] key(tail[j]) by {
            assert(tail[i] == s[i + 1]);
            assert(tail[j] == s[j + 1]);
        }
        lemma_keep_where_unique_by(tail, p, key);
        lemma_keep_where_contains(tail, p);
        let r = keep_where(s, p);
        let rest = keep_where(tail, p);
        if p(s[0]) {
            assert forall|i: int, j: int| 0 <= i < j < r.len() implies #[trigger] key(r[i])
                != #[trigger] key(r[j]) by {
                if i == 0 {
                    assert(rest[j - 1] == r[j]);
                    assert(rest.contains(r[j]));
                    let m = choose|m: int| 0 <= m < tail.len() && tail[m] == r[j];
                    assert(s[m + 1] == r[j]);
                    assert(key(s[0]) != key(s[m + 1]));
                } else {
                    assert(r[i] == rest[i - 1]);
                    assert(r[j] == rest[j - 1]);
                }
            }
        }
    }
}

} // verus!
