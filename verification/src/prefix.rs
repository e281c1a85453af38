//! A fact about sequence prefixes that the loops of the library share.

use vstd::prelude::*;

verus! {

/// The last step of a prefix: what `take(k + 1)` adds to `take(k)`.
pub proof fn lemma_take_step<A>(s: Seq<A>, k: int)
    requires
        0 <= k < s.len(),
    ensures
        s.take(k + 1).len() == k + 1,
        s.take(k + 1).drop_last() == s.take(k),
        s.take(k + 1).last() == s[k],
{
    assert(s.take(k + 1).drop_last() =~= s.take(k));
}

} // verus!
