//! Counting.

use vstd::prelude::*;

verus! {

/// How many items of a sequence have a property.
pub open spec fn count_where<T>(s: Seq<T>, has: spec_fn(T) -> bool) -> nat
    decreases s.len(),
{
    if s.len() == 0 {
        0
    } else {
        count_where(s.drop_last(), has) + if has(s.last()) {
            1nat
        } else {
            0nat
        }
    }
}

/// The count is the number of items that are left when all others are struck
/// out.
pub proof fn law_count_is_what_a_filter_leaves<T>(s: Seq<T>, has: spec_fn(T) -> bool)
    ensures
        count_where(s, has) == s.filter(has).len(),
    decreases s.len(),
{
    reveal(Seq::filter);
    if s.len() > 0 {
        law_count_is_what_a_filter_leaves(s.drop_last(), has);
    }
}

/// What more items have is counted at least as often.
pub proof fn lemma_count_at_most<T>(s: Seq<T>, p: spec_fn(T) -> bool, q: spec_fn(T) -> bool)
    requires
        forall|i: int| 0 <= i < s.len() && p(#[trigger] s[i]) ==> q(s[i]),
    ensures
        count_where(s, p) <= count_where(s, q) <= s.len(),
    decreases s.len(),
{
    if s.len() > 0 {
        let front = s.drop_last();
        assert forall|i: int| 0 <= i < front.len() && p(#[trigger] front[i]) implies q(
            front[i],
        ) by {
            assert(front[i] == s[i]);
        }
        lemma_count_at_most(front, p, q);
        assert(s[s.len() - 1] == s.last());
    }
}

/// Two sequences that have a property at the same places count the same.
pub proof fn lemma_count_same<A, B>(
    s: Seq<A>,
    p: spec_fn(A) -> bool,
    t: Seq<B>,
    q: spec_fn(B) -> bool,
)
    requires
        s.len() == t.len(),
        forall|i: int| 0 <= i < s.len() ==> p(#[trigger] s[i]) == q(t[i]),
    ensures
        count_where(s, p) == count_where(t, q),
    decreases s.len(),
{
    if s.len() > 0 {
        let a = s.drop_last();
        let b = t.drop_last();
        assert forall|i: int| 0 <= i < a.len() implies p(#[trigger] a[i]) == q(b[i]) by {
            assert(a[i] == s[i]);
        }
        lemma_count_same(a, p, b, q);
        assert(s[s.len() - 1] == s.last());
    }
}

/// Where no item has a property, none is counted.
pub proof fn lemma_count_none<T>(s: Seq<T>, p: spec_fn(T) -> bool)
    requires
        forall|i: int| 0 <= i < s.len() ==> !p(#[trigger] s[i]),
    ensures
        count_where(s, p) == 0,
    decreases s.len(),
{
    if s.len() > 0 {
        let front = s.drop_last();
        assert forall|i: int| 0 <= i < front.len() implies !p(#[trigger] front[i]) by {
            assert(front[i] == s[i]);
        }
        lemma_count_none(front, p);
        assert(s[s.len() - 1] == s.last());
    }
}

} // verus!
