//! The first place in a sequence at which something holds.
use vstd::prelude::*;

verus! {

/// The position of the first item of `s` of which `p` holds, or the length of
/// `s` where it holds of none.
pub open spec fn first_where<A>(s: Seq<A>, p: spec_fn(A) -> bool) -> nat
    decreases s.len(),
{
    if s.len() == 0 || p(s[0]) {
        0
    } else {
        1 + first_where(s.drop_first(), p)
    }
}

/// `first_where` lies within `s`, `p` holds of no item before it, and `p` holds
/// of the item at it where there is one.
pub proof fn lemma_first_where<A>(s: Seq<A>, p: spec_fn(A) -> bool)
    ensures
        first_where(s, p) <= s.len(),
        forall|i: int| 0 <= i < first_where(s, p) ==> !p(#[trigger] s[i]),
        first_where(s, p) < s.len() ==> p(s[first_where(s, p) as int]),
    decreases s.len(),
{
    if s.len() > 0 && !p(s[0]) {
        let t = s.drop_first();
        lemma_first_where(t, p);
        assert forall|i: int| 0 <= i < first_where(s, p) implies !p(#[trigger] s[i]) by {
            if i > 0 {
                assert(s[i] == t[i - 1]);
            }
        }
    }
}

/// Where `p` holds of none of the first `n` items of `s`, `first_where` is `n`
/// or more; it is `n` where `s` ends there or `p` holds of the item at `n`.
pub proof fn lemma_first_where_is<A>(s: Seq<A>, p: spec_fn(A) -> bool, n: nat)
    requires
        n <= s.len(),
        forall|i: int| 0 <= i < n ==> !p(#[trigger] s[i]),
    ensures
        first_where(s, p) >= n,
        (n == s.len() || p(s[n as int])) ==> first_where(s, p) == n,
    decreases n,
{
    if n > 0 {
        let t = s.drop_first();
        lemma_first_where_is(t, p, (n - 1) as nat);
    }
}

} // verus!
