//! First and last index at which a predicate holds.

use vstd::prelude::*;

verus! {

/// The least index in `0..n` at which `p` holds.
pub open spec fn first_index(p: spec_fn(int) -> bool, n: int) -> Option<int>
    decreases n,
{
    if n <= 0 {
        None
    } else {
        match first_index(p, n - 1) {
            Some(i) => Some(i),
            None => if p(n - 1) {
                Some(n - 1)
            } else {
                None
            },
        }
    }
}

/// The greatest index in `0..n` at which `p` holds.
pub open spec fn last_index(p: spec_fn(int) -> bool, n: int) -> Option<int>
    decreases n,
{
    if n <= 0 {
        None
    } else if p(n - 1) {
        Some(n - 1)
    } else {
        last_index(p, n - 1)
    }
}

/// `first_index` finds an index where `p` holds and below which it fails, or
/// finds nothing and `p` fails everywhere in range.
pub proof fn lemma_first_index(p: spec_fn(int) -> bool, n: int)
    ensures
        match first_index(p, n) {
            Some(i) => 0 <= i < n && p(i) && forall|j: int| 0 <= j < i ==> !#[trigger] p(j),
            None => forall|j: int| 0 <= j < n ==> !#[trigger] p(j),
        },
    decreases n,
{
    if n > 0 {
        lemma_first_index(p, n - 1);
    }
}

/// An index where `p` holds and below which it fails is the one that
/// `first_index` finds.
pub proof fn lemma_first_index_is(p: spec_fn(int) -> bool, n: int, i: int)
    requires
        0 <= i < n,
        p(i),
        forall|j: int| 0 <= j < i ==> !#[trigger] p(j),
    ensures
        first_index(p, n) == Some(i),
{
    lemma_first_index(p, n);
    let k = first_index(p, n)->0;
    if k < i {
        assert(!p(k));
    }
    if i < k {
        assert(!p(i));
    }
}

/// Where `p` fails throughout the range, `first_index` finds nothing.
pub proof fn lemma_first_index_none(p: spec_fn(int) -> bool, n: int)
    requires
        forall|j: int| 0 <= j < n ==> !#[trigger] p(j),
    ensures
        first_index(p, n) is None,
{
    lemma_first_index(p, n);
}

/// `last_index` finds an index where `p` holds and above which it fails, or
/// finds nothing and `p` fails everywhere in range.
pub proof fn lemma_last_index(p: spec_fn(int) -> bool, n: int)
    ensures
        match last_index(p, n) {
            Some(i) => 0 <= i < n && p(i) && forall|j: int| i < j < n ==> !#[trigger] p(j),
            None => forall|j: int| 0 <= j < n ==> !#[trigger] p(j),
        },
    decreases n,
{
    if n > 0 {
        lemma_last_index(p, n - 1);
    }
}

/// What a function gives for the last element comes last.
pub proof fn lemma_flatten_last<A, B>(s: Seq<A>, f: spec_fn(A) -> Seq<B>)
    ensures
        s.len() == 0 ==> s.map_values(f).flatten() == Seq::<B>::empty(),
        s.len() > 0 ==> s.map_values(f).flatten() == s.drop_last().map_values(f).flatten() + f(
            s.last(),
        ),
{
    if s.len() > 0 {
        let front = s.drop_last().map_values(f);
        assert(s.map_values(f) == front.push(f(s.last())));
        front.lemma_flatten_push(f(s.last()));
    }
}


} // verus!
