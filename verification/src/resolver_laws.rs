//! What duplicate resolution guarantees.
//!
//! Kept calls come from the window and do not overlap one another; a call is
//! kept exactly when it does not collide with the kept calls that outrank
//! it; of calls that all overlap, the most confident alone is kept.

use vstd::prelude::*;
use crate::orderer::distinct_indexes;
use crate::resolver::{
    coverage, first_choice, lemma_coverage_push, lemma_first_choice_is_best, resolve_from,
    resolved,
};
use crate::variant::Variant;

verus! {

/// Taking one call out of a sequence leaves only calls of that sequence, and
/// loses none but the one taken out.
proof fn lemma_remove_members<P>(calls: Seq<Variant<P>>, at: int)
    requires
        0 <= at < calls.len(),
    ensures
        calls.remove(at).len() == calls.len() - 1,
        forall|call: Variant<P>| calls.remove(at).contains(call) ==> calls.contains(call),
        forall|call: Variant<P>|
            calls.contains(call) ==> call == calls[at] || calls.remove(at).contains(call),
        forall|i: int|
            0 <= i < calls.len() - 1 ==> #[trigger] calls.remove(at)[i] == calls[if i < at {
                i
            } else {
                i + 1
            }],
{
    calls.remove_ensures(at);
    let rest = calls.remove(at);
    assert forall|call: Variant<P>| rest.contains(call) implies calls.contains(call) by {
        let i = choose|i: int| 0 <= i < rest.len() && rest[i] == call;
        if i < at {
            assert(calls[i] == call);
        } else {
            assert(calls[i + 1] == call);
        }
    }
    assert forall|call: Variant<P>| calls.contains(call) implies call == calls[at] || rest.contains(
        call,
    ) by {
        let i = choose|i: int| 0 <= i < calls.len() && calls[i] == call;
        if i < at {
            assert(rest[i] == call);
        } else if i > at {
            assert(rest[i - 1] == call);
        }
    }
}

/// Two footprints overlap exactly when some coordinate lies in both.
pub proof fn lemma_overlap_is_a_shared_coordinate<P>(one: Variant<P>, other: Variant<P>)
    ensures
        one.overlaps(&other) <==> !one.footprint().disjoint(other.footprint()),
{
    if one.overlaps(&other) {
        let shared = if one.start < other.start {
            other.start as int
        } else {
            one.start as int
        };
        assert(one.footprint().contains(shared) && other.footprint().contains(shared));
    }
}

/// A call that collides with some taken coordinates collides with any
/// larger set of them.
pub proof fn lemma_blocked_by_more<P>(call: Variant<P>, fewer: Set<int>, more: Set<int>)
    requires
        fewer.subset_of(more),
        call.blocked_by(fewer),
    ensures
        call.blocked_by(more),
{
    if !call.is_point() {
        let x = choose|x: int| call.footprint().contains(x) && fewer.contains(x);
        assert(more.contains(x));
    }
}

/// The footprint of a kept call is among the taken coordinates.
pub proof fn lemma_coverage_holds_footprint<P>(kept: Seq<Variant<P>>, call: Variant<P>)
    requires
        kept.contains(call),
    ensures
        call.footprint().subset_of(coverage(kept)),
{
    let i = choose|i: int| 0 <= i < kept.len() && kept[i] == call;
    assert forall|x: int| call.footprint().contains(x) implies coverage(kept).contains(x) by {
        assert(kept[i].footprint().contains(x));
    }
}

/// Resolution keeps only calls that were pending or already kept, and never
/// lets go of a call it has kept.
pub proof fn lemma_resolve_from_members<P>(pending: Seq<Variant<P>>, kept: Seq<Variant<P>>)
    ensures
        forall|call: Variant<P>|
            resolve_from(pending, kept).contains(call) ==> kept.contains(call) || pending.contains(
                call,
            ),
        forall|call: Variant<P>| kept.contains(call) ==> resolve_from(pending, kept).contains(call),
    decreases pending.len(),
{
    if pending.len() > 0 {
        lemma_first_choice_is_best(pending);
        let choice = first_choice(pending);
        let next = pending[choice];
        let rest = pending.remove(choice);
        lemma_remove_members(pending, choice);
        let longer = kept.push(next);
        assert(longer[kept.len() as int] == next);
        assert forall|call: Variant<P>| longer.contains(call) implies kept.contains(call) || call
            == next by {
            let i = choose|i: int| 0 <= i < longer.len() && longer[i] == call;
            if i < kept.len() {
                assert(kept[i] == call);
            }
        }
        assert forall|call: Variant<P>| kept.contains(call) implies longer.contains(call) by {
            let i = choose|i: int| 0 <= i < kept.len() && kept[i] == call;
            assert(longer[i] == call);
        }
        if next.blocked_by(coverage(kept)) {
            lemma_resolve_from_members(rest, kept);
        } else {
            lemma_resolve_from_members(rest, longer);
        }
    }
}

/// Every call that resolution keeps is a call of the window.
pub proof fn lemma_resolved_members<P>(window: Seq<Variant<P>>)
    ensures
        forall|call: Variant<P>| resolved(window).contains(call) ==> window.contains(call),
{
    lemma_resolve_from_members(window, Seq::empty());
}

/// A call that collides with the calls kept so far, and is not one of them,
/// is not kept later either.
pub proof fn lemma_blocked_stays_out<P>(
    pending: Seq<Variant<P>>,
    kept: Seq<Variant<P>>,
    call: Variant<P>,
)
    requires
        call.blocked_by(coverage(kept)),
        !kept.contains(call),
    ensures
        !resolve_from(pending, kept).contains(call),
    decreases pending.len(),
{
    if pending.len() > 0 {
        lemma_first_choice_is_best(pending);
        let choice = first_choice(pending);
        let next = pending[choice];
        let rest = pending.remove(choice);
        lemma_remove_members(pending, choice);
        if next.blocked_by(coverage(kept)) {
            lemma_blocked_stays_out(rest, kept, call);
        } else {
            let longer = kept.push(next);
            lemma_coverage_push(kept, next);
            lemma_blocked_by_more(call, coverage(kept), coverage(longer));
            assert(!longer.contains(call)) by {
                if longer.contains(call) {
                    let i = choose|i: int| 0 <= i < longer.len() && longer[i] == call;
                    if i < kept.len() {
                        assert(kept[i] == call);
                    }
                }
            }
            lemma_blocked_stays_out(rest, longer, call);
        }
    }
}

proof fn lemma_outranked_and_blocked_from<P>(
    pending: Seq<Variant<P>>,
    kept: Seq<Variant<P>>,
    winner: Variant<P>,
    call: Variant<P>,
)
    requires
        winner.outranks(&call),
        call.blocked_by(winner.footprint()),
        resolve_from(pending, kept).contains(winner),
        !kept.contains(call),
    ensures
        !resolve_from(pending, kept).contains(call),
    decreases pending.len(),
{
    if kept.contains(winner) {
        lemma_coverage_holds_footprint(kept, winner);
        lemma_blocked_by_more(call, winner.footprint(), coverage(kept));
        lemma_blocked_stays_out(pending, kept, call);
    } else {
        lemma_resolve_from_members(pending, kept);
        assert(pending.contains(winner));
        lemma_first_choice_is_best(pending);
        let choice = first_choice(pending);
        let next = pending[choice];
        let rest = pending.remove(choice);
        lemma_remove_members(pending, choice);
        let at = choose|i: int| 0 <= i < pending.len() && pending[i] == winner;
        assert(!pending[at].outranks(&pending[choice]));
        assert(next != call);
        if next.blocked_by(coverage(kept)) {
            lemma_outranked_and_blocked_from(rest, kept, winner, call);
        } else {
            let longer = kept.push(next);
            assert(!longer.contains(call)) by {
                if longer.contains(call) {
                    let i = choose|i: int| 0 <= i < longer.len() && longer[i] == call;
                    if i < kept.len() {
                        assert(kept[i] == call);
                    }
                }
            }
            lemma_outranked_and_blocked_from(rest, longer, winner, call);
        }
    }
}

/// No call is kept that collides with a kept call which outranks it.
pub proof fn lemma_outranked_and_blocked_is_rejected<P>(
    window: Seq<Variant<P>>,
    winner: Variant<P>,
    call: Variant<P>,
)
    requires
        resolved(window).contains(winner),
        winner.outranks(&call),
        call.blocked_by(winner.footprint()),
    ensures
        !resolved(window).contains(call),
{
    lemma_outranked_and_blocked_from(window, Seq::empty(), winner, call);
}

/// A point is rejected when its coordinate lies anywhere in the footprint of
/// a kept call that outranks it, at the first coordinate of that footprint
/// or past it.
pub proof fn lemma_point_inside_kept_footprint_is_rejected<P>(
    window: Seq<Variant<P>>,
    winner: Variant<P>,
    point: Variant<P>,
)
    requires
        resolved(window).contains(winner),
        winner.outranks(&point),
        point.is_point(),
        winner.start <= point.start < winner.end,
    ensures
        !resolved(window).contains(point),
{
    assert(winner.footprint().contains(point.start as int));
    lemma_outranked_and_blocked_is_rejected(window, winner, point);
}

proof fn lemma_all_blocked_keeps_nothing_more<P>(pending: Seq<Variant<P>>, kept: Seq<Variant<P>>)
    requires
        forall|i: int| 0 <= i < pending.len() ==> (#[trigger] pending[i]).blocked_by(coverage(kept)),
    ensures
        resolve_from(pending, kept) == kept,
    decreases pending.len(),
{
    if pending.len() > 0 {
        lemma_first_choice_is_best(pending);
        let choice = first_choice(pending);
        lemma_remove_members(pending, choice);
        lemma_all_blocked_keeps_nothing_more(pending.remove(choice), kept);
    }
}

/// Of calls whose footprints overlap one another, exactly one is kept: the
/// one looked at first, whose score no call of the window exceeds.
pub proof fn lemma_overlapping_cluster_keeps_one<P>(window: Seq<Variant<P>>)
    requires
        window.len() > 0,
        forall|i: int, j: int|
            #![trigger window[i], window[j]]
            0 <= i < window.len() && 0 <= j < window.len() && i != j ==> window[i].overlaps(
                &window[j],
            ),
    ensures
        resolved(window) == seq![window[first_choice(window)]],
        forall|j: int|
            0 <= j < window.len() ==> window[first_choice(window)].score >= (
            #[trigger] window[j]).score,
{
    lemma_first_choice_is_best(window);
    let choice = first_choice(window);
    let winner = window[choice];
    let rest = window.remove(choice);
    let nothing = Seq::<Variant<P>>::empty();
    lemma_remove_members(window, choice);
    assert(!winner.blocked_by(coverage(nothing)));
    assert(nothing.push(winner) =~= seq![winner]);
    assert(seq![winner].contains(winner)) by {
        assert(seq![winner][0] == winner);
    }
    lemma_coverage_holds_footprint(seq![winner], winner);
    assert forall|i: int| 0 <= i < rest.len() implies (#[trigger] rest[i]).blocked_by(
        coverage(seq![winner]),
    ) by {
        let j = if i < choice {
            i
        } else {
            i + 1
        };
        assert(rest[i] == window[j]);
        assert(window[j].overlaps(&window[choice]));
        let shared = if rest[i].start < winner.start {
            winner.start as int
        } else {
            rest[i].start as int
        };
        assert(rest[i].footprint().contains(shared) && winner.footprint().contains(shared));
        assert(coverage(seq![winner]).contains(shared));
    }
    lemma_all_blocked_keeps_nothing_more(rest, seq![winner]);
    assert forall|j: int| 0 <= j < window.len() implies winner.score >= (
    #[trigger] window[j]).score by {
        assert(!window[j].outranks(&window[choice]));
    }
}

/// No two calls overlap pairwise.
pub open spec fn free_of_overlap<P>(calls: Seq<Variant<P>>) -> bool {
    forall|i: int, j: int|
        #![trigger calls[i], calls[j]]
        0 <= i < calls.len() && 0 <= j < calls.len() && i != j ==> !calls[i].overlaps(&calls[j])
}

proof fn lemma_resolve_from_is_free_of_overlap<P>(pending: Seq<Variant<P>>, kept: Seq<Variant<P>>)
    requires
        free_of_overlap(kept),
    ensures
        free_of_overlap(resolve_from(pending, kept)),
    decreases pending.len(),
{
    if pending.len() > 0 {
        lemma_first_choice_is_best(pending);
        let choice = first_choice(pending);
        let next = pending[choice];
        let rest = pending.remove(choice);
        lemma_remove_members(pending, choice);
        if next.blocked_by(coverage(kept)) {
            lemma_resolve_from_is_free_of_overlap(rest, kept);
        } else {
            let longer = kept.push(next);
            assert forall|i: int| 0 <= i < kept.len() implies !(#[trigger] kept[i]).overlaps(
                &next,
            ) by {
                if kept[i].overlaps(&next) {
                    let shared = if kept[i].start < next.start {
                        next.start as int
                    } else {
                        kept[i].start as int
                    };
                    assert(kept[i].footprint().contains(shared));
                    assert(coverage(kept).contains(shared));
                    assert(next.footprint().contains(shared));
                }
            }
            assert forall|i: int, j: int|
                #![trigger longer[i], longer[j]]
                0 <= i < longer.len() && 0 <= j < longer.len() && i != j implies !longer[i].overlaps(
                &longer[j],
            ) by {
                if i < kept.len() && j < kept.len() {
                    assert(longer[i] == kept[i] && longer[j] == kept[j]);
                } else if i < kept.len() {
                    assert(longer[i] == kept[i]);
                } else {
                    assert(longer[j] == kept[j]);
                }
            }
            lemma_resolve_from_is_free_of_overlap(rest, longer);
        }
    }
}

/// No two kept calls have footprints that share a coordinate.
pub proof fn lemma_kept_calls_do_not_overlap<P>(window: Seq<Variant<P>>)
    ensures
        free_of_overlap(resolved(window)),
{
    lemma_resolve_from_is_free_of_overlap(window, Seq::empty());
}

/// The more calls are kept, the more coordinates are taken.
pub proof fn lemma_coverage_grows<P>(fewer: Seq<Variant<P>>, more: Seq<Variant<P>>)
    requires
        forall|call: Variant<P>| fewer.contains(call) ==> more.contains(call),
    ensures
        coverage(fewer).subset_of(coverage(more)),
{
    assert forall|x: int| coverage(fewer).contains(x) implies coverage(more).contains(x) by {
        let i = choose|i: int| 0 <= i < fewer.len() && #[trigger] fewer[i].footprint().contains(x);
        assert(fewer.contains(fewer[i]));
        lemma_coverage_holds_footprint(more, fewer[i]);
    }
}

proof fn lemma_resolve_from_rejects_only_blocked<P>(
    pending: Seq<Variant<P>>,
    kept: Seq<Variant<P>>,
    call: Variant<P>,
)
    requires
        pending.contains(call),
        !resolve_from(pending, kept).contains(call),
    ensures
        call.blocked_by(coverage(resolve_from(pending, kept))),
    decreases pending.len(),
{
    lemma_first_choice_is_best(pending);
    let choice = first_choice(pending);
    let next = pending[choice];
    let rest = pending.remove(choice);
    lemma_remove_members(pending, choice);
    if next.blocked_by(coverage(kept)) {
        if rest.contains(call) {
            lemma_resolve_from_rejects_only_blocked(rest, kept, call);
        } else {
            assert(call == next);
            lemma_resolve_from_members(rest, kept);
            lemma_coverage_grows(kept, resolve_from(rest, kept));
            lemma_blocked_by_more(call, coverage(kept), coverage(resolve_from(rest, kept)));
        }
    } else {
        let longer = kept.push(next);
        if rest.contains(call) {
            lemma_resolve_from_rejects_only_blocked(rest, longer, call);
        } else {
            assert(call == next);
            assert(longer[kept.len() as int] == call);
            assert(longer.contains(call));
            lemma_resolve_from_members(rest, longer);
        }
    }
}

/// No call is rejected without cause: every call of the window that is not
/// kept collides with the kept calls.
pub proof fn lemma_rejected_calls_are_blocked<P>(window: Seq<Variant<P>>, call: Variant<P>)
    requires
        window.contains(call),
        !resolved(window).contains(call),
    ensures
        call.blocked_by(coverage(resolved(window))),
{
    lemma_resolve_from_rejects_only_blocked(window, Seq::empty(), call);
}

/// The coordinates taken by those of the kept calls that outrank `call`.
pub open spec fn taken_above<P>(kept: Seq<Variant<P>>, call: Variant<P>) -> Set<int> {
    Set::new(
        |x: int|
            exists|i: int|
                0 <= i < kept.len() && #[trigger] kept[i].footprint().contains(x)
                    && kept[i].outranks(&call),
    )
}

proof fn lemma_resolve_from_keeps_the_unblocked<P>(
    pending: Seq<Variant<P>>,
    kept: Seq<Variant<P>>,
    call: Variant<P>,
)
    requires
        distinct_indexes(pending),
        pending.contains(call),
        forall|i: int, j: int|
            #![trigger kept[i], pending[j]]
            0 <= i < kept.len() && 0 <= j < pending.len() ==> kept[i].outranks(&pending[j]),
    ensures
        resolve_from(pending, kept).contains(call) <==> !call.blocked_by(
            taken_above(resolve_from(pending, kept), call),
        ),
    decreases pending.len(),
{
    lemma_first_choice_is_best(pending);
    let choice = first_choice(pending);
    let next = pending[choice];
    let rest = pending.remove(choice);
    lemma_remove_members(pending, choice);
    let after = if next.blocked_by(coverage(kept)) {
        kept
    } else {
        kept.push(next)
    };
    let result = resolve_from(pending, kept);
    assert(result == resolve_from(rest, after));
    assert forall|j: int| #![trigger rest[j]] 0 <= j < rest.len() implies next.outranks(&rest[j]) by {
        let k = if j < choice {
            j
        } else {
            j + 1
        };
        assert(rest[j] == pending[k]);
        assert(!pending[k].outranks(&pending[choice]));
        assert(pending[k].index != pending[choice].index);
    }
    if next == call {
        lemma_resolve_from_members(rest, after);
        assert(!kept.contains(call)) by {
            if kept.contains(call) {
                let i = choose|i: int| 0 <= i < kept.len() && kept[i] == call;
                assert(kept[i].outranks(&pending[choice]));
            }
        }
        assert(taken_above(result, call) =~= coverage(kept)) by {
            assert forall|x: int| taken_above(result, call).contains(x) implies coverage(
                kept,
            ).contains(x) by {
                let i = choose|i: int|
                    0 <= i < result.len() && #[trigger] result[i].footprint().contains(x)
                        && result[i].outranks(&call);
                assert(result.contains(result[i]));
                if after.contains(result[i]) {
                    if !kept.contains(result[i]) {
                        let k = choose|k: int| 0 <= k < after.len() && after[k] == result[i];
                        if k < kept.len() {
                            assert(kept[k] == result[i]);
                        }
                    }
                    lemma_coverage_holds_footprint(kept, result[i]);
                } else {
                    let j = choose|j: int| 0 <= j < rest.len() && rest[j] == result[i];
                    assert(next.outranks(&rest[j]));
                }
            }
            assert forall|x: int| coverage(kept).contains(x) implies taken_above(
                result,
                call,
            ).contains(x) by {
                let i = choose|i: int|
                    0 <= i < kept.len() && #[trigger] kept[i].footprint().contains(x);
                assert(kept[i].outranks(&pending[choice]));
                assert(after.contains(kept[i])) by {
                    assert(after[i] == kept[i]);
                }
                let k = choose|k: int| 0 <= k < result.len() && result[k] == kept[i];
                assert(result[k].footprint().contains(x) && result[k].outranks(&call));
            }
        }
        if next.blocked_by(coverage(kept)) {
            lemma_blocked_stays_out(rest, kept, call);
        } else {
            assert(after[kept.len() as int] == call);
            assert(after.contains(call));
        }
    } else {
        assert forall|i: int, j: int|
            #![trigger after[i], rest[j]]
            0 <= i < after.len() && 0 <= j < rest.len() implies after[i].outranks(&rest[j]) by {
            let k = if j < choice {
                j
            } else {
                j + 1
            };
            assert(rest[j] == pending[k]);
            if i < kept.len() {
                assert(after[i] == kept[i]);
            }
        }
        lemma_resolve_from_keeps_the_unblocked(rest, after, call);
    }
}

/// Where every call of the window has a stream index of its own, a call of
/// the window is kept exactly when it does not collide with the kept calls
/// that outrank it.
pub proof fn lemma_kept_exactly_when_unblocked<P>(window: Seq<Variant<P>>, call: Variant<P>)
    requires
        distinct_indexes(window),
        window.contains(call),
    ensures
        resolved(window).contains(call) <==> !call.blocked_by(
            taken_above(resolved(window), call),
        ),
{
    lemma_resolve_from_keeps_the_unblocked(window, Seq::empty(), call);
}

proof fn lemma_resolve_from_keeps_indexes_apart<P>(pending: Seq<Variant<P>>, kept: Seq<Variant<P>>)
    requires
        distinct_indexes(pending),
        distinct_indexes(kept),
        forall|i: int, j: int|
            0 <= i < kept.len() && 0 <= j < pending.len() ==> (#[trigger] kept[i]).index
                != (#[trigger] pending[j]).index,
    ensures
        distinct_indexes(resolve_from(pending, kept)),
    decreases pending.len(),
{
    if pending.len() > 0 {
        lemma_first_choice_is_best(pending);
        let choice = first_choice(pending);
        let next = pending[choice];
        let rest = pending.remove(choice);
        lemma_remove_members(pending, choice);
        if next.blocked_by(coverage(kept)) {
            lemma_resolve_from_keeps_indexes_apart(rest, kept);
        } else {
            lemma_resolve_from_keeps_indexes_apart(rest, kept.push(next));
        }
    }
}

/// Where every call of the window has a stream index of its own, so has
/// every kept call.
pub proof fn lemma_resolved_keeps_indexes_apart<P>(window: Seq<Variant<P>>)
    requires
        distinct_indexes(window),
    ensures
        distinct_indexes(resolved(window)),
{
    lemma_resolve_from_keeps_indexes_apart(window, Seq::empty());
}

} // verus!
