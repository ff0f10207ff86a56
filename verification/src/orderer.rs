//! Putting kept calls back into stream order.
//!
//! Resolution hands calls back most confident first. Before they are
//! written they are arranged by ascending stream index again.

use vstd::prelude::*;
use vstd::seq_lib::to_multiset_insert;
use crate::variant::Variant;

verus! {

/// No call stands before one with a lower stream index.
pub open spec fn ascending_by_index<P>(calls: Seq<Variant<P>>) -> bool {
    forall|i: int, j: int| 0 <= i < j < calls.len() ==> calls[i].index <= calls[j].index
}

/// Every call has a higher stream index than the calls before it.
pub open spec fn strictly_ascending_by_index<P>(calls: Seq<Variant<P>>) -> bool {
    forall|i: int, j: int| 0 <= i < j < calls.len() ==> calls[i].index < calls[j].index
}

/// No stream index occurs twice.
pub open spec fn distinct_indexes<P>(calls: Seq<Variant<P>>) -> bool {
    forall|i: int, j: int| 0 <= i < j < calls.len() ==> calls[i].index != calls[j].index
}

/// Where a call with the given stream index goes into an ascending sequence:
/// the first position whose call does not have a lower index.
pub open spec fn insertion_point<P>(sorted: Seq<Variant<P>>, index: u64) -> int
    decreases sorted.len(),
{
    if sorted.len() == 0 || sorted.first().index >= index {
        0
    } else {
        1 + insertion_point(sorted.drop_first(), index)
    }
}

/// The calls arranged by ascending stream index. Calls with the same index
/// keep the order in which they stood.
pub open spec fn in_stream_order<P>(calls: Seq<Variant<P>>) -> Seq<Variant<P>>
    decreases calls.len(),
{
    if calls.len() == 0 {
        calls
    } else {
        let rest = in_stream_order(calls.drop_first());
        rest.insert(insertion_point(rest, calls.first().index), calls.first())
    }
}

/// The insertion point lies within the sequence or right after it, every
/// call before it has a lower index, and the call at it has none.
pub proof fn lemma_insertion_point<P>(sorted: Seq<Variant<P>>, index: u64)
    ensures
        0 <= insertion_point(sorted, index) <= sorted.len(),
        forall|j: int|
            0 <= j < insertion_point(sorted, index) ==> (#[trigger] sorted[j]).index < index,
        insertion_point(sorted, index) < sorted.len() ==> sorted[insertion_point(
            sorted,
            index,
        )].index >= index,
    decreases sorted.len(),
{
    if !(sorted.len() == 0 || sorted.first().index >= index) {
        let rest = sorted.drop_first();
        lemma_insertion_point(rest, index);
        assert forall|j: int| 0 <= j < insertion_point(sorted, index) implies (
        #[trigger] sorted[j]).index < index by {
            if j > 0 {
                assert(sorted[j] == rest[j - 1]);
            }
        }
        if insertion_point(sorted, index) < sorted.len() {
            assert(sorted[insertion_point(sorted, index)] == rest[insertion_point(rest, index)]);
        }
    }
}

/// Arranging by stream index yields an ascending sequence that holds each
/// call as often as the given one does.
pub proof fn lemma_in_stream_order<P>(calls: Seq<Variant<P>>)
    ensures
        in_stream_order(calls).len() == calls.len(),
        ascending_by_index(in_stream_order(calls)),
        in_stream_order(calls).to_multiset() == calls.to_multiset(),
        forall|call: Variant<P>| in_stream_order(calls).contains(call) <==> calls.contains(call),
    decreases calls.len(),
{
    broadcast use vstd::seq_lib::group_to_multiset_ensures;

    if calls.len() > 0 {
        let tail = calls.drop_first();
        let head = calls.first();
        let rest = in_stream_order(tail);
        let at = insertion_point(rest, head.index);
        let sorted = rest.insert(at, head);
        lemma_in_stream_order(tail);
        lemma_insertion_point(rest, head.index);
        assert forall|i: int, j: int| 0 <= i < j < sorted.len() implies sorted[i].index
            <= sorted[j].index by {
            if i < at && j > at {
                assert(sorted[i] == rest[i]);
                assert(sorted[j] == rest[j - 1]);
            } else if i > at {
                assert(sorted[i] == rest[i - 1]);
                assert(sorted[j] == rest[j - 1]);
            } else if i == at {
                assert(sorted[j] == rest[j - 1]);
                assert(rest[at].index <= rest[j - 1].index);
            }
        }
        to_multiset_insert(rest, at, head);
        assert(tail.insert(0, head) =~= calls);
        to_multiset_insert(tail, 0, head);
    }
    assert forall|call: Variant<P>| in_stream_order(calls).contains(call) <==> calls.contains(
        call,
    ) by {
        assert(in_stream_order(calls).to_multiset().count(call) == calls.to_multiset().count(call));
    }
}

/// Where every call has a stream index of its own, arranging by stream index
/// yields a strictly ascending sequence.
pub proof fn lemma_in_stream_order_is_strict<P>(calls: Seq<Variant<P>>)
    requires
        distinct_indexes(calls),
    ensures
        strictly_ascending_by_index(in_stream_order(calls)),
    decreases calls.len(),
{
    if calls.len() > 0 {
        let tail = calls.drop_first();
        let head = calls.first();
        let rest = in_stream_order(tail);
        let at = insertion_point(rest, head.index);
        let sorted = rest.insert(at, head);
        assert forall|i: int, j: int| 0 <= i < j < tail.len() implies tail[i].index
            != tail[j].index by {
            assert(tail[i] == calls[i + 1] && tail[j] == calls[j + 1]);
        }
        lemma_in_stream_order_is_strict(tail);
        lemma_in_stream_order(tail);
        lemma_insertion_point(rest, head.index);
        assert forall|k: int| 0 <= k < rest.len() implies (#[trigger] rest[k]).index
            != head.index by {
            assert(rest.contains(rest[k]));
            assert(tail.contains(rest[k]));
            let m = choose|m: int| 0 <= m < tail.len() && tail[m] == rest[k];
            assert(tail[m] == calls[m + 1]);
        }
        assert forall|i: int, j: int| 0 <= i < j < sorted.len() implies sorted[i].index
            < sorted[j].index by {
            if i < at && j > at {
                assert(sorted[i] == rest[i]);
                assert(sorted[j] == rest[j - 1]);
            } else if i > at {
                assert(sorted[i] == rest[i - 1]);
                assert(sorted[j] == rest[j - 1]);
            } else if i == at {
                assert(sorted[j] == rest[j - 1]);
                assert(rest[at].index <= rest[j - 1].index) by {
                    lemma_in_stream_order(tail);
                }
            } else if j == at {
                assert(sorted[i] == rest[i]);
            } else {
                assert(sorted[i] == rest[i]);
                assert(sorted[j] == rest[j]);
            }
        }
    }
}

/// Finds where a call with the given stream index goes.
fn find_insertion_point<P>(sorted: &Vec<Variant<P>>, index: u64) -> (at: usize)
    ensures
        at == insertion_point(sorted@, index),
        at <= sorted.len(),
{
    let mut at: usize = 0;
    assert(sorted@.subrange(0, sorted@.len() as int) =~= sorted@);
    while at < sorted.len() && sorted[at].index < index
        invariant
            at <= sorted.len(),
            insertion_point(sorted@, index) == at + insertion_point(
                sorted@.subrange(at as int, sorted@.len() as int),
                index,
            ),
        decreases sorted.len() - at,
    {
        let ghost here = sorted@.subrange(at as int, sorted@.len() as int);
        assert(here.first() == sorted@[at as int]);
        assert(here.drop_first() =~= sorted@.subrange(at + 1, sorted@.len() as int));
        at = at + 1;
    }
    proof {
        let here = sorted@.subrange(at as int, sorted@.len() as int);
        if at < sorted.len() {
            assert(here.first() == sorted@[at as int]);
        }
    }
    at
}

/// Arranges calls by ascending stream index. Each call comes back as it was
/// handed in, as often as it was handed in.
pub fn order_by_index<P>(calls: Vec<Variant<P>>) -> (ordered: Vec<Variant<P>>)
    ensures
        ordered@ == in_stream_order(calls@),
        ascending_by_index(ordered@),
        ordered@.to_multiset() == calls@.to_multiset(),
        distinct_indexes(calls@) ==> strictly_ascending_by_index(ordered@),
{
    let ghost given = calls@;
    let mut pending = calls;
    let mut ordered: Vec<Variant<P>> = Vec::new();
    assert(given.subrange(given.len() as int, given.len() as int) =~= Seq::empty());
    while pending.len() > 0
        invariant
            pending.len() <= given.len(),
            pending@ == given.subrange(0, pending.len() as int),
            ordered@ == in_stream_order(given.subrange(pending.len() as int, given.len() as int)),
        decreases pending.len(),
    {
        let ghost done = given.subrange(pending.len() as int, given.len() as int);
        let ghost next_done = given.subrange(pending.len() - 1, given.len() as int);
        match pending.pop() {
            Some(next) => {
                assert(next_done.first() == next);
                assert(next_done.drop_first() =~= done);
                let at = find_insertion_point(&ordered, next.index);
                ordered.insert(at, next);
            },
            None => {},
        }
    }
    proof {
        assert(given.subrange(0, given.len() as int) =~= given);
        lemma_in_stream_order(given);
        if distinct_indexes(given) {
            lemma_in_stream_order_is_strict(given);
        }
    }
    ordered
}

} // verus!
