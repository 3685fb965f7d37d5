//! Positions in sequences: the first index at which something holds.
use vstd::prelude::*;

verus! {

/// `i` is the first of `0 .. n` at which `p` holds.
pub open spec fn is_least(n: int, p: spec_fn(int) -> bool, i: int) -> bool {
    &&& 0 <= i < n
    &&& p(i)
    &&& forall|j: int| 0 <= j < i ==> !#[trigger] p(j)
}

/// The first of `0 .. n` at which `p` holds, if there is one.
pub open spec fn least(n: int, p: spec_fn(int) -> bool) -> Option<int> {
    if exists|i: int| is_least(n, p, i) {
        Some(choose|i: int| is_least(n, p, i))
    } else {
        None
    }
}

/// There is only one first index.
pub proof fn lemma_least_found(n: int, p: spec_fn(int) -> bool, i: int)
    requires
        is_least(n, p, i),
    ensures
        least(n, p) == Some(i),
{
    let c = choose|c: int| is_least(n, p, c);
    assert(is_least(n, p, c));
    if c < i {
        assert(!p(c));
    } else if i < c {
        assert(!p(i));
    }
}

/// Where nothing in the range has the property there is no first index.
pub proof fn lemma_least_missing(n: int, p: spec_fn(int) -> bool)
    requires
        forall|j: int| 0 <= j < n ==> !#[trigger] p(j),
    ensures
        least(n, p) is None,
{
}

/// Where anything in the range has the property, a first index is found.
pub proof fn lemma_least_exists(n: int, p: spec_fn(int) -> bool, k: int)
    requires
        0 <= k < n,
        p(k),
    ensures
        least(n, p) is Some,
        is_least(n, p, least(n, p)->0),
        least(n, p)->0 <= k,
    decreases k,
{
    if forall|j: int| 0 <= j < k ==> !#[trigger] p(j) {
        assert(is_least(n, p, k));
        lemma_least_found(n, p, k);
    } else {
        let j = choose|j: int| 0 <= j < k && #[trigger] p(j);
        lemma_least_exists(n, p, j);
    }
}

/// What a first index says, both ways.
pub proof fn lemma_least(n: int, p: spec_fn(int) -> bool)
    ensures
        match least(n, p) {
            Some(i) => is_least(n, p, i),
            None => forall|j: int| 0 <= j < n ==> !#[trigger] p(j),
        },
{
    if least(n, p) is None {
        assert forall|j: int| 0 <= j < n implies !#[trigger] p(j) by {
            if p(j) {
                lemma_least_exists(n, p, j);
            }
        }
    }
}

/// What is left by a filter was there before.
pub proof fn lemma_filter_source<A>(s: Seq<A>, p: spec_fn(A) -> bool, i: int) -> (k: int)
    requires
        0 <= i < s.filter(p).len(),
    ensures
        0 <= k < s.len(),
        s[k] == s.filter(p)[i],
    decreases s.len(),
{
    reveal(Seq::filter);
    let before = s.drop_last().filter(p);
    if i < before.len() {
        lemma_filter_source(s.drop_last(), p, i)
    } else {
        s.len() - 1
    }
}

} // verus!
