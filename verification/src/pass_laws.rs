//! What a window and a whole pass guarantee.
//!
//! Each statement here is proved from the definitions of the pass: what is
//! written is in stream order, comes unchanged from the records, respects a
//! chromosome restriction, and keeps the calls that stand alone.

use vstd::prelude::*;
use crate::orderer::{
    ascending_by_index, distinct_indexes, in_stream_order, lemma_in_stream_order,
    lemma_in_stream_order_is_strict, strictly_ascending_by_index,
};
use crate::resolver::{first_choice, lemma_single_call_is_kept, resolved};
use crate::resolver_laws::{
    lemma_overlapping_cluster_keeps_one, lemma_resolved_keeps_indexes_apart,
    lemma_resolved_members,
};
use crate::variant::{HaplotypeSlot, Record, Variant};
use crate::window::{emitted, in_scope_only, pass_output, survivors, PassState};

verus! {

/// A window writes exactly the calls that resolution keeps.
pub proof fn lemma_emitted_is_what_is_kept<P>(window: Seq<Variant<P>>)
    ensures
        emitted(window).len() == resolved(window).len(),
        emitted(window).to_multiset() == resolved(window).to_multiset(),
        forall|call: Variant<P>| emitted(window).contains(call) <==> resolved(window).contains(call),
        forall|call: Variant<P>| emitted(window).contains(call) ==> window.contains(call),
{
    lemma_in_stream_order(resolved(window));
    lemma_resolved_members(window);
}

/// A window with exactly one call writes it.
pub proof fn lemma_single_call_is_written<P>(window: Seq<Variant<P>>)
    requires
        window.len() == 1,
    ensures
        emitted(window) == window,
{
    lemma_single_call_is_kept(window);
    let nothing = window.drop_first();
    assert(in_stream_order(nothing) == nothing);
    assert(nothing.insert(0, window.first()) =~= window);
}

/// Whatever order resolution looked at the calls in, a window writes them
/// by ascending stream index, and by strictly ascending index where every
/// call of the window has an index of its own.
pub proof fn lemma_emitted_is_in_stream_order<P>(window: Seq<Variant<P>>)
    ensures
        ascending_by_index(emitted(window)),
        distinct_indexes(window) ==> strictly_ascending_by_index(emitted(window)),
{
    lemma_in_stream_order(resolved(window));
    if distinct_indexes(window) {
        lemma_resolved_keeps_indexes_apart(window);
        lemma_in_stream_order_is_strict(resolved(window));
    }
}

/// A window of calls whose footprints overlap one another writes exactly
/// one of them, and no call of the window has a higher score.
pub proof fn lemma_overlapping_cluster_writes_one<P>(window: Seq<Variant<P>>)
    requires
        window.len() > 0,
        forall|i: int, j: int|
            #![trigger window[i], window[j]]
            0 <= i < window.len() && 0 <= j < window.len() && i != j ==> window[i].overlaps(
                &window[j],
            ),
    ensures
        emitted(window) == seq![window[first_choice(window)]],
        forall|j: int|
            0 <= j < window.len() ==> emitted(window)[0].score >= (#[trigger] window[j]).score,
{
    lemma_overlapping_cluster_keeps_one(window);
    let kept = seq![window[first_choice(window)]];
    let nothing = kept.drop_first();
    assert(in_stream_order(nothing) == nothing);
    assert(nothing.insert(0, kept.first()) =~= kept);
}

impl<P> PassState<P> {
    /// Every call of the open window lies on the chromosome of the last
    /// record, which is the requested one where one is requested.
    pub open spec fn on_one_chromosome(self) -> bool {
        forall|i: int|
            0 <= i < self.window.len() ==> {
                &&& Some((#[trigger] self.window[i]).chromosome) == self.previous_chromosome
                &&& self.restriction matches Some(chromosome) ==> self.window[i].chromosome
                    == chromosome
            }
    }

    /// The calls of the open window stand by strictly ascending stream
    /// index, below the index that the next record gets.
    pub open spec fn in_arrival_order(self) -> bool {
        &&& strictly_ascending_by_index(self.window)
        &&& forall|i: int|
            0 <= i < self.window.len() ==> (#[trigger] self.window[i]).index < self.next_index
    }

    /// A record keeps the open window on one chromosome.
    pub proof fn lemma_after_stays_on_one_chromosome(self, record: Record<P>)
        requires
            self.on_one_chromosome(),
        ensures
            self.after(record).on_one_chromosome(),
            self.after(record).slot == self.slot,
            self.after(record).restriction == self.restriction,
    {
    }

    /// A record keeps the open window in arrival order, as long as stream
    /// indexes last.
    pub proof fn lemma_after_stays_in_arrival_order(self, record: Record<P>)
        requires
            self.in_arrival_order(),
            self.next_index < u64::MAX,
        ensures
            self.after(record).in_arrival_order(),
            self.next_index <= self.after(record).next_index <= self.next_index + 1,
    {
    }

    /// After any stream, the calls of the open window share one chromosome:
    /// calls on different chromosomes never stand in one window.
    pub proof fn lemma_window_shares_chromosome(self, records: Seq<Record<P>>)
        requires
            self.on_one_chromosome(),
        ensures
            self.after_all(records).on_one_chromosome(),
            self.after_all(records).slot == self.slot,
            self.after_all(records).restriction == self.restriction,
            forall|i: int, j: int|
                #![trigger self.after_all(records).window[i], self.after_all(records).window[j]]
                0 <= i < self.after_all(records).window.len() && 0 <= j < self.after_all(
                    records,
                ).window.len() ==> self.after_all(records).window[i].chromosome == self.after_all(
                    records,
                ).window[j].chromosome,
        decreases records.len(),
    {
        if records.len() > 0 {
            self.lemma_window_shares_chromosome(records.drop_last());
            self.after_all(records.drop_last()).lemma_after_stays_on_one_chromosome(records.last());
        }
    }

    /// After any stream, the calls of the open window stand in arrival
    /// order, as long as stream indexes last.
    pub proof fn lemma_window_in_arrival_order(self, records: Seq<Record<P>>)
        requires
            self.in_arrival_order(),
            self.next_index + records.len() <= u64::MAX,
        ensures
            self.after_all(records).in_arrival_order(),
            self.next_index <= self.after_all(records).next_index <= self.next_index
                + records.len(),
        decreases records.len(),
    {
        if records.len() > 0 {
            self.lemma_window_in_arrival_order(records.drop_last());
            self.after_all(records.drop_last()).lemma_after_stays_in_arrival_order(records.last());
        }
    }

    /// Under a restriction, every call that a stream causes to be written
    /// lies on the requested chromosome.
    pub proof fn lemma_written_during_in_scope(self, records: Seq<Record<P>>, chromosome: u32)
        requires
            self.on_one_chromosome(),
            self.restriction == Some(chromosome),
        ensures
            forall|call: Variant<P>|
                self.written_during(records).contains(call) ==> call.chromosome == chromosome,
        decreases records.len(),
    {
        if records.len() > 0 {
            let earlier = records.drop_last();
            let state = self.after_all(earlier);
            self.lemma_written_during_in_scope(earlier, chromosome);
            self.lemma_window_shares_chromosome(earlier);
            lemma_emitted_is_what_is_kept(state.window);
            let before = self.written_during(earlier);
            let now = state.written_at(records.last());
            assert forall|call: Variant<P>| (before + now).contains(call) implies call.chromosome
                == chromosome by {
                let i = choose|i: int| 0 <= i < (before + now).len() && (before + now)[i] == call;
                if i < before.len() {
                    assert(before[i] == call);
                } else {
                    assert(now[i - before.len()] == call);
                    assert(state.window.contains(call));
                }
            }
        }
    }

    /// Records off the requested chromosome leave no trace: the state after
    /// a stream, and what the stream causes to be written, are those of the
    /// stream without them.
    pub proof fn lemma_out_of_scope_records_leave_no_trace(self, records: Seq<Record<P>>)
        ensures
            self.after_all(records) == self.after_all(in_scope_only(records, self.restriction)),
            self.written_during(records) == self.written_during(
                in_scope_only(records, self.restriction),
            ),
            self.after_all(records).restriction == self.restriction,
        decreases records.len(),
    {
        reveal(Seq::filter);
        let inside = |record: Record<P>| record.spec_in_scope(self.restriction);
        if records.len() > 0 {
            let earlier = records.drop_last();
            let last = records.last();
            self.lemma_out_of_scope_records_leave_no_trace(earlier);
            let kept = earlier.filter(inside);
            if inside(last) {
                assert(records.filter(inside) == kept.push(last));
                assert(kept.push(last).drop_last() =~= kept);
                assert(kept.push(last).last() == last);
            } else {
                assert(records.filter(inside) == kept);
            }
        }
    }
}

/// Every call of `earlier` has a lower stream index than every call of
/// `later`.
pub open spec fn all_before<P>(earlier: Seq<Variant<P>>, later: Seq<Variant<P>>) -> bool {
    forall|i: int, j: int|
        #![trigger earlier[i], later[j]]
        0 <= i < earlier.len() && 0 <= j < later.len() ==> earlier[i].index < later[j].index
}

/// Two strictly ascending runs, the first wholly before the second, make a
/// strictly ascending run together.
pub proof fn lemma_ascending_runs_join<P>(earlier: Seq<Variant<P>>, later: Seq<Variant<P>>)
    requires
        strictly_ascending_by_index(earlier),
        strictly_ascending_by_index(later),
        all_before(earlier, later),
    ensures
        strictly_ascending_by_index(earlier + later),
{
    let joined = earlier + later;
    assert forall|i: int, j: int| 0 <= i < j < joined.len() implies joined[i].index
        < joined[j].index by {
        if j < earlier.len() {
            assert(joined[i] == earlier[i] && joined[j] == earlier[j]);
        } else if i < earlier.len() {
            assert(joined[i] == earlier[i] && joined[j] == later[j - earlier.len()]);
        } else {
            assert(joined[i] == later[i - earlier.len()] && joined[j] == later[j - earlier.len()]);
        }
    }
}

impl<P> PassState<P> {
    /// What a window writes stays within the window's stream indexes: it is
    /// strictly ascending, and every index in it is one of the window.
    proof fn lemma_emitted_of_window(self)
        requires
            self.in_arrival_order(),
        ensures
            strictly_ascending_by_index(emitted(self.window)),
            forall|i: int|
                0 <= i < emitted(self.window).len() ==> self.window.contains(
                    #[trigger] emitted(self.window)[i],
                ),
            forall|i: int|
                0 <= i < emitted(self.window).len() ==> (#[trigger] emitted(self.window)[i]).index
                    < self.next_index,
    {
        lemma_emitted_is_in_stream_order(self.window);
        lemma_emitted_is_what_is_kept(self.window);
        let out = emitted(self.window);
        assert forall|i: int| 0 <= i < out.len() implies self.window.contains(#[trigger] out[i]) by {
            assert(out.contains(out[i]));
        }
        assert forall|i: int| 0 <= i < out.len() implies (#[trigger] out[i]).index
            < self.next_index by {
            assert(self.window.contains(out[i]));
            let k = choose|k: int| 0 <= k < self.window.len() && self.window[k] == out[i];
            assert(self.window[k].index < self.next_index);
        }
    }

    /// What a stream causes to be written is strictly ascending in stream
    /// index and lies wholly before the window left open, as long as
    /// stream indexes last.
    pub proof fn lemma_written_during_in_stream_order(self, records: Seq<Record<P>>)
        requires
            self.in_arrival_order(),
            self.next_index + records.len() <= u64::MAX,
        ensures
            strictly_ascending_by_index(self.written_during(records)),
            all_before(self.written_during(records), self.after_all(records).window),
            forall|i: int|
                0 <= i < self.written_during(records).len() ==> (#[trigger] self.written_during(
                    records,
                )[i]).index < self.after_all(records).next_index,
            self.after_all(records).in_arrival_order(),
        decreases records.len(),
    {
        self.lemma_window_in_arrival_order(records);
        if records.len() > 0 {
            let earlier = records.drop_last();
            let record = records.last();
            let state = self.after_all(earlier);
            let before = self.written_during(earlier);
            let now = state.written_at(record);
            let next = state.after(record);
            self.lemma_written_during_in_stream_order(earlier);
            self.lemma_window_in_arrival_order(earlier);
            state.lemma_after_stays_in_arrival_order(record);
            state.lemma_emitted_of_window();
            assert(all_before(before, now)) by {
                assert forall|i: int, j: int|
                    #![trigger before[i], now[j]]
                    0 <= i < before.len() && 0 <= j < now.len() implies before[i].index
                    < now[j].index by {
                    assert(state.window.contains(now[j]));
                    let k = choose|k: int| 0 <= k < state.window.len() && state.window[k] == now[j];
                    assert(before[i].index < state.window[k].index);
                }
            }
            lemma_ascending_runs_join(before, now);
            let all = before + now;
            assert forall|i: int| 0 <= i < all.len() implies (#[trigger] all[i]).index
                < state.next_index by {
                if i < before.len() {
                    assert(all[i] == before[i]);
                } else {
                    assert(all[i] == now[i - before.len()]);
                }
            }
            assert forall|i: int, j: int|
                #![trigger all[i], next.window[j]]
                0 <= i < all.len() && 0 <= j < next.window.len() implies all[i].index
                < next.window[j].index by {
                if record.spec_in_scope(state.restriction) && !state.opens_window(record) && j
                    < state.window.len() {
                    assert(next.window[j] == state.window[j]);
                    assert(all[i] == before[i]);
                }
            }
        }
    }
}

/// A pass writes its calls by strictly ascending stream index, whatever the
/// order in which resolution looked at them.
pub proof fn lemma_pass_output_in_stream_order<P>(
    slot: HaplotypeSlot,
    restriction: Option<u32>,
    records: Seq<Record<P>>,
)
    requires
        records.len() <= u64::MAX,
    ensures
        strictly_ascending_by_index(pass_output(slot, restriction, records)),
{
    let start = PassState::<P>::initial(slot, restriction);
    start.lemma_written_during_in_stream_order(records);
    let state = start.after_all(records);
    let before = start.written_during(records);
    let last = emitted(state.window);
    state.lemma_emitted_of_window();
    assert(all_before(before, last)) by {
        assert forall|i: int, j: int|
            #![trigger before[i], last[j]]
            0 <= i < before.len() && 0 <= j < last.len() implies before[i].index
            < last[j].index by {
            assert(state.window.contains(last[j]));
            let k = choose|k: int| 0 <= k < state.window.len() && state.window[k] == last[j];
            assert(before[i].index < state.window[k].index);
        }
    }
    lemma_ascending_runs_join(before, last);
}

/// The calls that the haplotype filter lets through stand by strictly
/// ascending stream index, each below the number of records in scope.
pub proof fn lemma_survivors_in_stream_order<P>(
    slot: HaplotypeSlot,
    restriction: Option<u32>,
    records: Seq<Record<P>>,
)
    requires
        records.len() <= u64::MAX,
    ensures
        strictly_ascending_by_index(survivors(slot, restriction, records)),
        in_scope_only(records, restriction).len() <= records.len(),
        forall|i: int|
            0 <= i < survivors(slot, restriction, records).len() ==> (#[trigger] survivors(
                slot,
                restriction,
                records,
            )[i]).index < in_scope_only(records, restriction).len(),
    decreases records.len(),
{
    reveal(Seq::filter);
    if records.len() > 0 {
        let earlier = records.drop_last();
        let known = survivors(slot, restriction, earlier);
        let all = survivors(slot, restriction, records);
        lemma_survivors_in_stream_order(slot, restriction, earlier);
        assert forall|i: int, j: int| 0 <= i < j < all.len() implies all[i].index
            < all[j].index by {
            assert(all[i] == known[i]);
            if j < known.len() {
                assert(all[j] == known[j]);
            }
        }
        assert forall|i: int| 0 <= i < all.len() implies (#[trigger] all[i]).index
            < in_scope_only(records, restriction).len() by {
            if i < known.len() {
                assert(all[i] == known[i]);
            }
        }
    }
}

proof fn lemma_pass_holds_survivors<P>(
    slot: HaplotypeSlot,
    restriction: Option<u32>,
    records: Seq<Record<P>>,
)
    requires
        records.len() <= u64::MAX,
    ensures
        in_scope_only(records, restriction).len() <= records.len(),
        PassState::<P>::initial(slot, restriction).after_all(records).next_index == in_scope_only(
            records,
            restriction,
        ).len(),
        PassState::<P>::initial(slot, restriction).after_all(records).slot == slot,
        PassState::<P>::initial(slot, restriction).after_all(records).restriction == restriction,
        forall|call: Variant<P>|
            PassState::<P>::initial(slot, restriction).after_all(records).window.contains(call)
                ==> survivors(slot, restriction, records).contains(call),
        forall|call: Variant<P>|
            PassState::<P>::initial(slot, restriction).written_during(records).contains(call)
                ==> survivors(slot, restriction, records).contains(call),
    decreases records.len(),
{
    reveal(Seq::filter);
    let start = PassState::<P>::initial(slot, restriction);
    if records.len() > 0 {
        let earlier = records.drop_last();
        let record = records.last();
        let state = start.after_all(earlier);
        let next = state.after(record);
        let known = survivors(slot, restriction, earlier);
        let all = survivors(slot, restriction, records);
        lemma_pass_holds_survivors(slot, restriction, earlier);
        lemma_emitted_is_what_is_kept(state.window);
        assert forall|call: Variant<P>| known.contains(call) implies all.contains(call) by {
            let i = choose|i: int| 0 <= i < known.len() && known[i] == call;
            assert(all[i] == call);
        }
        assert forall|call: Variant<P>| next.window.contains(call) implies all.contains(call) by {
            let i = choose|i: int| 0 <= i < next.window.len() && next.window[i] == call;
            if record.spec_in_scope(restriction) {
                let open = if state.opens_window(record) {
                    Seq::empty()
                } else {
                    state.window
                };
                if i < open.len() {
                    assert(state.window[i] == call);
                    assert(state.window.contains(call));
                } else {
                    assert(all[known.len() as int] == call);
                }
            } else {
                assert(state.window.contains(call));
            }
        }
        let before = start.written_during(earlier);
        let now = state.written_at(record);
        assert forall|call: Variant<P>| (before + now).contains(call) implies all.contains(
            call,
        ) by {
            let i = choose|i: int| 0 <= i < (before + now).len() && (before + now)[i] == call;
            if i < before.len() {
                assert(before[i] == call);
                assert(before.contains(call));
            } else {
                assert(now[i - before.len()] == call);
                assert(now.contains(call));
                assert(state.window.contains(call));
            }
        }
    }
}

/// Every call that a pass writes is one that the haplotype filter let
/// through, as it came from its record: a pass makes up no call and changes
/// none.
pub proof fn lemma_pass_writes_survivors<P>(
    slot: HaplotypeSlot,
    restriction: Option<u32>,
    records: Seq<Record<P>>,
)
    requires
        records.len() <= u64::MAX,
    ensures
        forall|call: Variant<P>|
            pass_output(slot, restriction, records).contains(call) ==> survivors(
                slot,
                restriction,
                records,
            ).contains(call),
{
    let start = PassState::<P>::initial(slot, restriction);
    lemma_pass_holds_survivors(slot, restriction, records);
    let state = start.after_all(records);
    lemma_emitted_is_what_is_kept(state.window);
    let before = start.written_during(records);
    let last = emitted(state.window);
    assert forall|call: Variant<P>| (before + last).contains(call) implies survivors(
        slot,
        restriction,
        records,
    ).contains(call) by {
        let i = choose|i: int| 0 <= i < (before + last).len() && (before + last)[i] == call;
        if i < before.len() {
            assert(before[i] == call);
            assert(before.contains(call));
        } else {
            assert(last[i - before.len()] == call);
            assert(last.contains(call));
            assert(state.window.contains(call));
        }
    }
}

/// Under a restriction every written call lies on the requested chromosome,
/// and the pass writes what it would write if the records of the other
/// chromosomes were not in the stream at all.
pub proof fn lemma_restriction_holds<P>(
    slot: HaplotypeSlot,
    restriction: Option<u32>,
    records: Seq<Record<P>>,
)
    ensures
        pass_output(slot, restriction, records) == pass_output(
            slot,
            restriction,
            in_scope_only(records, restriction),
        ),
        restriction matches Some(chromosome) ==> forall|call: Variant<P>|
            pass_output(slot, restriction, records).contains(call) ==> call.chromosome
                == chromosome,
{
    let start = PassState::<P>::initial(slot, restriction);
    start.lemma_out_of_scope_records_leave_no_trace(records);
    if let Some(chromosome) = restriction {
        start.lemma_written_during_in_scope(records, chromosome);
        start.lemma_window_shares_chromosome(records);
        let state = start.after_all(records);
        lemma_emitted_is_what_is_kept(state.window);
        let before = start.written_during(records);
        let last = emitted(state.window);
        assert forall|call: Variant<P>| (before + last).contains(call) implies call.chromosome
            == chromosome by {
            let i = choose|i: int| 0 <= i < (before + last).len() && (before + last)[i] == call;
            if i < before.len() {
                assert(before[i] == call);
                assert(before.contains(call));
            } else {
                assert(last[i - before.len()] == call);
                assert(last.contains(call));
                assert(state.window.contains(call));
                let k = choose|k: int| 0 <= k < state.window.len() && state.window[k] == call;
                assert(state.window[k].chromosome == chromosome);
            }
        }
    }
}

impl<P> PassState<P> {
    /// A call that stands alone in its window is written when the window
    /// closes, whatever the stream before it and whatever closes it.
    pub proof fn lemma_lone_call_is_written(self, record: Record<P>)
        requires
            self.window.len() == 1,
            record.spec_in_scope(self.restriction),
            self.opens_window(record),
        ensures
            self.written_at(record) == self.window,
    {
        lemma_single_call_is_written(self.window);
    }
}

/// Two calls that each stand alone in a window are both written: where the
/// second record of a stream of two opens a new window, the pass writes the
/// calls of both, in stream order.
pub proof fn lemma_lone_calls_are_both_written<P>(
    slot: HaplotypeSlot,
    restriction: Option<u32>,
    first: Record<P>,
    second: Record<P>,
)
    requires
        first.well_formed(),
        first.spec_in_scope(restriction) && first.spec_select(slot, 0) is Some,
        second.spec_in_scope(restriction) && second.spec_select(slot, 1) is Some,
        first.spec_end() < second.position || first.chromosome != second.chromosome,
    ensures
        pass_output(slot, restriction, seq![first, second]) == seq![
            first.variant_at(0),
            second.variant_at(1),
        ],
{
    let start = PassState::<P>::initial(slot, restriction);
    let both = seq![first, second];
    let one = seq![first];
    let none = Seq::<Record<P>>::empty();
    assert(both.drop_last() =~= one);
    assert(one.drop_last() =~= none);
    assert(both.last() == second && one.last() == first);
    assert(start.after_all(none) == start);
    let opened = start.after(first);
    assert(start.after_all(one) == opened);
    assert(opened.window =~= seq![first.variant_at(0)]);
    let closed = opened.after(second);
    assert(start.after_all(both) == closed);
    assert(closed.window =~= seq![second.variant_at(1)]);
    lemma_single_call_is_written(opened.window);
    lemma_single_call_is_written(closed.window);
    lemma_emitted_is_what_is_kept(start.window);
    assert(emitted(start.window) =~= Seq::empty());
    assert(start.written_during(none) =~= Seq::empty());
    assert(start.written_during(one) =~= Seq::empty());
    assert(start.written_during(both) =~= seq![first.variant_at(0)]);
    assert(pass_output(slot, restriction, both) =~= seq![first.variant_at(0), second.variant_at(1)]);
}

} // verus!
