use anyhow::Error as Cause;
use vstd::prelude::*;

use crate::access::Access;
use crate::borrows::{Borrows, BORROWS_LIMIT};
use crate::error::Error;

verus! {

/// The accesses of a list of borrow lists, one after the other.
pub open spec fn joined(parts: Seq<Borrows>) -> Seq<Access>
    decreases parts.len(),
{
    if parts.len() == 0 {
        Seq::empty()
    } else {
        joined(parts.drop_last()) + parts.last()@
    }
}

/// The borrow list of a system: the lists of its parameters, in order.
pub fn system_borrows(parts: &Vec<Borrows>) -> (r: Borrows)
    requires
        joined(parts@).len() <= BORROWS_LIMIT,
    ensures
        r@ == joined(parts@),
{
    let mut r = Borrows::new();
    let n = parts.len();
    let mut i: usize = 0;
    assert(parts@.take(0) =~= Seq::<Borrows>::empty());
    while i < n
        invariant
            n == parts@.len(),
            i <= n,
            r@ == joined(parts@.take(i as int)),
            joined(parts@).len() <= BORROWS_LIMIT,
        decreases n - i,
    {
        proof {
            lemma_joined_prefix_len(parts@, i as int + 1);
        }
        assert(parts@.take(i + 1).drop_last() =~= parts@.take(i as int));
        r.extend_from(&parts[i]);
        i = i + 1;
    }
    assert(parts@.take(n as int) =~= parts@);
    r
}

proof fn lemma_joined_prefix_len(parts: Seq<Borrows>, k: int)
    requires
        0 <= k <= parts.len(),
    ensures
        joined(parts.take(k)).len() <= joined(parts).len(),
    decreases parts.len(),
{
    if k < parts.len() {
        assert(parts.drop_last().take(k) =~= parts.take(k));
        lemma_joined_prefix_len(parts.drop_last(), k);
    } else {
        assert(parts.take(k) =~= parts);
    }
}

/// The error of a system that failed: its name and the cause.
pub fn system_error(name: String, cause: Cause) -> (r: Error)
    ensures
        r matches Error::SystemError(n, _) && n == name,
{
    Error::SystemError(name, cause)
}

} // verus!
