//! The decision of attaching an element's event handlers during hydration: delegated handlers
//! are registered at once, the others are set aside, in order, to be attached together at the
//! end.

use vstd::prelude::*;

verus! {

/// The positions `i` in `delegated` (in increasing order) at which `delegated[i] == which`.
pub open spec fn positions_where(delegated: Seq<bool>, which: bool) -> Seq<usize>
    decreases delegated.len(),
{
    if delegated.len() == 0 {
        Seq::empty()
    } else {
        let init = positions_where(delegated.drop_last(), which);
        if delegated.last() == which {
            init.push((delegated.len() - 1) as usize)
        } else {
            init
        }
    }
}

/// Split an element's handlers, given in order by whether each is delegated, into the
/// positions of the delegated ones (registered at once) and of the others (attached later,
/// in this order).
pub fn batch_events(delegated: &Vec<bool>) -> (r: (Vec<usize>, Vec<usize>))
    ensures
        r.0@ == positions_where(delegated@, true),
        r.1@ == positions_where(delegated@, false),
{
    let mut now: Vec<usize> = Vec::new();
    let mut later: Vec<usize> = Vec::new();
    let n = delegated.len();
    let mut i: usize = 0;
    while i < n
        invariant
            n == delegated@.len(),
            i <= n,
            now@ == positions_where(delegated@.take(i as int), true),
            later@ == positions_where(delegated@.take(i as int), false),
        decreases n - i,
    {
        assert(delegated@.take(i + 1).drop_last() =~= delegated@.take(i as int));
        assert(delegated@.take(i + 1).last() == delegated@[i as int]);
        if delegated[i] {
            now.push(i);
        } else {
            later.push(i);
        }
        i += 1;
    }
    assert(delegated@.take(n as int) =~= delegated@);
    (now, later)
}

/// Every handler lands in exactly one of the two lists, each list in increasing order: the
/// two lists together are a partition of the positions, and none is lost or doubled.
pub proof fn law_batch_partitions_handlers(delegated: Seq<bool>)
    requires
        delegated.len() <= usize::MAX,
    ensures
        positions_where(delegated, true).len() + positions_where(delegated, false).len()
            == delegated.len(),
        forall|which: bool, k: int|
            0 <= k < positions_where(delegated, which).len() ==> {
                let i = #[trigger] positions_where(delegated, which)[k];
                &&& i < delegated.len()
                &&& delegated[i as int] == which
            },
        forall|which: bool, k: int, l: int|
            0 <= k < l < positions_where(delegated, which).len() ==> #[trigger] positions_where(
                delegated,
                which,
            )[k] < #[trigger] positions_where(delegated, which)[l],
        forall|i: int|
            0 <= i < delegated.len() ==> positions_where(delegated, #[trigger] delegated[i]).contains(
                i as usize,
            ),
    decreases delegated.len(),
{
    if delegated.len() > 0 {
        let init = delegated.drop_last();
        law_batch_partitions_handlers(init);
        assert forall|which: bool, k: int|
            0 <= k < positions_where(delegated, which).len() implies {
                let i = #[trigger] positions_where(delegated, which)[k];
                &&& i < delegated.len()
                &&& delegated[i as int] == which
            } by {
            let p = positions_where(init, which);
            if k < p.len() {
                assert(positions_where(delegated, which)[k] == p[k]);
                assert(delegated[p[k] as int] == init[p[k] as int]);
            }
        }
        assert forall|which: bool, k: int, l: int|
            0 <= k < l < positions_where(delegated, which).len() implies #[trigger] positions_where(
                delegated,
                which,
            )[k] < #[trigger] positions_where(delegated, which)[l] by {
            let p = positions_where(init, which);
            assert(positions_where(delegated, which)[k] == p[k]);
            if l < p.len() {
                assert(positions_where(delegated, which)[l] == p[l]);
            } else {
                assert(p[k] < init.len());
            }
        }
        assert forall|i: int|
            0 <= i < delegated.len() implies positions_where(delegated, #[trigger] delegated[i]).contains(
                i as usize,
            ) by {
            let which = delegated[i];
            let p = positions_where(init, which);
            if i < init.len() {
                assert(init[i] == delegated[i]);
                let k = choose|k: int| 0 <= k < p.len() && p[k] == i as usize;
                assert(positions_where(delegated, which)[k] == i as usize);
            } else {
                assert(positions_where(delegated, which).last() == i as usize);
            }
        }
    }
}

} // verus!
