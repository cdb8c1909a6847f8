//! What the operations of the library are for, in plain terms.
//!
//! Contracts speak of definitions such as `joined`, `hits` or `decides`. Here it is proved what
//! these come to, over the places of a text or a list, the characters themselves and the results
//! that a caller sees.

use vstd::prelude::*;

pub mod documents;
pub mod limits;
pub mod remote;
pub mod search;
pub mod storage;
pub mod synchronisation;
pub mod text;

verus! {

/// The places are those of a list of this length, from the first to the last, each once.
pub open spec fn in_order(places: Seq<int>, len: nat) -> bool {
    &&& forall|k: int| 0 <= k < places.len() ==> 0 <= #[trigger] places[k] < len
    &&& forall|j: int, k: int|
        0 <= j < k < places.len() ==> #[trigger] places[j] < #[trigger] places[k]
}

/// Places in order are still in order with the last place of a longer list behind them, and in the
/// longer list.
pub(crate) proof fn lemma_one_more_place(places: Seq<int>, len: nat)
    requires
        in_order(places, len),
    ensures
        in_order(places, len + 1),
        in_order(places.push(len as int), len + 1),
        !places.contains(len as int),
        forall|i: int| #[trigger]
            places.push(len as int).contains(i) <==> places.contains(i) || i == len,
{
    let more = places.push(len as int);
    if places.contains(len as int) {
        let k = places.index_of(len as int);
        assert(places[k] < len);
    }
    assert forall|i: int| #[trigger] more.contains(i) <==> places.contains(i) || i == len by {
        if places.contains(i) {
            let k = places.index_of(i);
            assert(more[k] == i);
        }
        assert(more[places.len() as int] == len);
        if more.contains(i) {
            let k = more.index_of(i);
            if k < places.len() {
                assert(places[k] == i);
            }
        }
    }
}

} // verus!
