//! First-match search over sequences, the shape of `Iterator::find` and
//! `Iterator::position`.
use vstd::prelude::*;

verus! {

/// The position of the first element of `s` that satisfies `p`.
pub open spec fn first_index<T>(s: Seq<T>, p: spec_fn(T) -> bool) -> Option<int>
    decreases s.len(),
{
    if s.len() == 0 {
        None
    } else if p(s[0]) {
        Some(0)
    } else {
        match first_index(s.drop_first(), p) {
            Some(i) => Some(i + 1),
            None => None,
        }
    }
}

/// Skipping elements that fail `p` shifts the first match by their number.
pub proof fn lemma_first_index_skip<T>(s: Seq<T>, p: spec_fn(T) -> bool, i: int)
    requires
        0 <= i <= s.len(),
        forall|k: int| 0 <= k < i ==> !p(#[trigger] s[k]),
    ensures
        first_index(s, p) == match first_index(s.skip(i), p) {
            Some(j) => Some(j + i),
            None => None,
        },
    decreases i,
{
    if i == 0 {
        assert(s.skip(0) =~= s);
        match first_index(s, p) {
            Some(j) => {},
            None => {},
        }
    } else {
        assert(!p(s[0]));
        lemma_first_index_skip(s.drop_first(), p, i - 1);
        assert(s.drop_first().skip(i - 1) =~= s.skip(i));
    }
}

/// What `first_index` says: the match satisfies `p`, lies in range, and
/// nothing before it does; no match means no element satisfies `p`.
pub proof fn lemma_first_index_meaning<T>(s: Seq<T>, p: spec_fn(T) -> bool)
    ensures
        match first_index(s, p) {
            Some(i) => 0 <= i < s.len() && p(s[i]) && forall|k: int| 0 <= k < i ==> !p(#[trigger] s[k]),
            None => forall|k: int| 0 <= k < s.len() ==> !p(#[trigger] s[k]),
        },
    decreases s.len(),
{
    if s.len() > 0 && !p(s[0]) {
        lemma_first_index_meaning(s.drop_first(), p);
        match first_index(s.drop_first(), p) {
            Some(i) => {
                assert forall|k: int| 0 <= k < i + 1 implies !p(#[trigger] s[k]) by {
                    if k > 0 {
                        assert(s[k] == s.drop_first()[k - 1]);
                    }
                }
            },
            None => {
                assert forall|k: int| 0 <= k < s.len() implies !p(#[trigger] s[k]) by {
                    if k > 0 {
                        assert(s[k] == s.drop_first()[k - 1]);
                    }
                }
            },
        }
    }
}

/// The first match found at position `i`, given that nothing before it
/// matches.
pub proof fn lemma_first_index_at<T>(s: Seq<T>, p: spec_fn(T) -> bool, i: int)
    requires
        0 <= i < s.len(),
        p(s[i]),
        forall|k: int| 0 <= k < i ==> !p(#[trigger] s[k]),
    ensures
        first_index(s, p) == Some(i),
{
    lemma_first_index_skip(s, p, i);
    assert(s.skip(i)[0] == s[i]);
}

/// No element matches, so there is no first match.
pub proof fn lemma_first_index_none<T>(s: Seq<T>, p: spec_fn(T) -> bool)
    requires
        forall|k: int| 0 <= k < s.len() ==> !p(#[trigger] s[k]),
    ensures
        first_index(s, p) is None,
{
    lemma_first_index_skip(s, p, s.len() as int);
    assert(s.skip(s.len() as int).len() == 0);
}

} // verus!
