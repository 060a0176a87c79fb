//! Finding the first occurrence of a value in a sequence.

use vstd::prelude::*;

verus! {

/// Position of the first `x` in `s`, or the length of `s` if it holds none.
pub open spec fn first_index<T>(s: Seq<T>, x: T) -> int
    decreases s.len(),
{
    if s.len() == 0 || s[0] == x {
        0
    } else {
        1 + first_index(s.drop_first(), x)
    }
}

/// `first_index` is the one position with no `x` before it that is the end
/// of `s` or holds `x`.
pub proof fn lemma_first_index<T>(s: Seq<T>, x: T, at: int)
    requires
        0 <= at <= s.len(),
        forall|k: int| 0 <= k < at ==> s[k] != x,
        at == s.len() || s[at] == x,
    ensures
        first_index(s, x) == at,
    decreases s.len(),
{
    if at > 0 {
        let rest = s.drop_first();
        assert forall|k: int| 0 <= k < at - 1 implies rest[k] != x by {
            assert(rest[k] == s[k + 1]);
        }
        lemma_first_index(rest, x, at - 1);
    }
}

/// `first_index` lies within `s` or at its end, no `x` stands before it,
/// and `x` stands at it unless it is the end.
pub proof fn lemma_first_index_is_first<T>(s: Seq<T>, x: T)
    ensures
        0 <= first_index(s, x) <= s.len(),
        forall|k: int| 0 <= k < first_index(s, x) ==> s[k] != x,
        first_index(s, x) == s.len() || s[first_index(s, x)] == x,
    decreases s.len(),
{
    if s.len() != 0 && s[0] != x {
        let rest = s.drop_first();
        lemma_first_index_is_first(rest, x);
        assert forall|k: int| 0 <= k < first_index(s, x) implies s[k] != x by {
            if k > 0 {
                assert(s[k] == rest[k - 1]);
            }
        }
    }
}

} // verus!
