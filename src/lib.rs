//! Message-oriented networking over a QUIC-class transport: the packet model
//! and its wire codec, the stale-drop rule for sequenced packets, the writer's
//! dispatch decisions, the reader's intake decisions and the peer filter
//! handshake, each with its contract.
use vstd::prelude::*;

pub mod delivery;
pub mod filter;
pub mod packet;
pub mod reader;
pub mod seq_table;
pub mod sequence;
pub mod socket;
pub mod transport;
pub mod writer;

verus! {

/// Whether the call `f(x)` may have failed.
pub open spec fn may_fail<T, A, B, F: Fn(T) -> Result<A, B>>(f: F, x: T) -> bool {
    exists|e: B| f.ensures((x,), Err::<A, B>(e))
}

/// Tries `f` on each item in turn and returns the first success. When every
/// item fails, returns the last failure, or `empty` when there was no item.
pub fn attempt_all<T, A, B, F: Fn(T) -> Result<A, B>>(items: Vec<T>, f: F, empty: B) -> (r: Result<
    A,
    B,
>)
    requires
        forall|i: int| 0 <= i < items@.len() ==> f.requires((#[trigger] items@[i],)),
    ensures
        r is Ok ==> exists|i: int|
            #![trigger items@[i]]
            0 <= i < items@.len() && f.ensures((items@[i],), r) && forall|j: int|
                0 <= j < i ==> may_fail(f, #[trigger] items@[j]),
        r is Err ==> forall|j: int| 0 <= j < items@.len() ==> may_fail(f, #[trigger] items@[j]),
        r is Err && items@.len() == 0 ==> r->Err_0 == empty,
        r is Err && items@.len() > 0 ==> f.ensures((items@[items@.len() - 1],), r),
{
    let ghost all = items@;
    let n = items.len();
    let mut rest = items;
    let mut last_err = empty;
    let mut k: usize = 0;
    while rest.len() > 0
        invariant
            k <= all.len() == n,
            all == items@,
            rest@ == all.subrange(k as int, all.len() as int),
            forall|i: int| 0 <= i < all.len() ==> f.requires((#[trigger] all[i],)),
            forall|j: int| 0 <= j < k ==> may_fail(f, #[trigger] all[j]),
            k == 0 ==> last_err == empty,
            k > 0 ==> f.ensures((all[k - 1],), Err::<A, B>(last_err)),
        decreases rest@.len(),
    {
        let item = rest.remove(0);
        assert(item == all[k as int]);
        let res = f(item);
        match res {
            Ok(_) => {
                assert(f.ensures((all[k as int],), res));
                return res;
            },
            Err(e) => {
                last_err = e;
            },
        }
        k = k + 1;
        assert(rest@ =~= all.subrange(k as int, all.len() as int));
    }
    Err(last_err)
}

} // verus!
