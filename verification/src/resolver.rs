//! Duplicate resolution within one window.
//!
//! The calls of a window are looked at one by one, the most confident first.
//! A call is kept unless it collides with the coordinates of the calls kept
//! before it; the coordinates of a kept call are then taken as well.

use vstd::prelude::*;
use crate::accepted::{covered, empty_set, holds_point, range_set, shares_point, united};
use crate::variant::Variant;

verus! {

/// The coordinates taken by a sequence of kept calls: the union of their
/// footprints.
pub open spec fn coverage<P>(kept: Seq<Variant<P>>) -> Set<int> {
    Set::new(
        |x: int| exists|i: int| 0 <= i < kept.len() && #[trigger] kept[i].footprint().contains(x),
    )
}

/// The position of the call that is looked at next among `pending`: one that
/// no other outranks, and the earliest of those.
pub open spec fn first_choice<P>(pending: Seq<Variant<P>>) -> int
    decreases pending.len(),
{
    if pending.len() <= 1 {
        0
    } else {
        let earlier = first_choice(pending.drop_last());
        if pending.last().outranks(&pending[earlier]) {
            pending.len() - 1
        } else {
            earlier
        }
    }
}

/// The calls kept once every pending call has been looked at, starting from
/// the calls `kept` so far. Kept calls stand in the order in which they were
/// looked at.
pub open spec fn resolve_from<P>(pending: Seq<Variant<P>>, kept: Seq<Variant<P>>) -> Seq<
    Variant<P>,
>
    decreases pending.len(),
    via resolve_from_terminates::<P>
{
    if pending.len() == 0 {
        kept
    } else {
        let choice = first_choice(pending);
        let next = pending[choice];
        let rest = pending.remove(choice);
        if next.blocked_by(coverage(kept)) {
            resolve_from(rest, kept)
        } else {
            resolve_from(rest, kept.push(next))
        }
    }
}

#[via_fn]
proof fn resolve_from_terminates<P>(pending: Seq<Variant<P>>, kept: Seq<Variant<P>>) {
    if pending.len() > 0 {
        lemma_first_choice_is_best(pending);
    }
}

/// The calls of a window that survive duplicate resolution, most confident
/// first.
pub open spec fn resolved<P>(window: Seq<Variant<P>>) -> Seq<Variant<P>> {
    resolve_from(window, Seq::empty())
}

/// Finds the call to look at next.
fn next_choice<P>(pending: &Vec<Variant<P>>) -> (choice: usize)
    requires
        pending.len() > 0,
    ensures
        choice == first_choice(pending@),
        choice < pending.len(),
{
    let mut choice: usize = 0;
    let mut seen: usize = 1;
    assert(pending@.subrange(0, 1).len() == 1);
    while seen < pending.len()
        invariant
            1 <= seen <= pending.len(),
            choice < seen,
            choice == first_choice(pending@.subrange(0, seen as int)),
        decreases pending.len() - seen,
    {
        let ghost before = pending@.subrange(0, seen as int);
        let ghost after = pending@.subrange(0, seen + 1);
        assert(after.drop_last() =~= before);
        assert(after.last() == pending@[seen as int]);
        assert(after[choice as int] == pending@[choice as int]);
        if pending[seen].goes_before(&pending[choice]) {
            choice = seen;
        }
        seen = seen + 1;
    }
    assert(pending@.subrange(0, seen as int) =~= pending@);
    choice
}

/// Resolves the duplicates of one window: hands back the calls that are
/// kept, most confident first, each as it was handed in.
pub fn resolve_duplication<P>(window: Vec<Variant<P>>) -> (kept: Vec<Variant<P>>)
    ensures
        kept@ == resolved(window@),
{
    if window.len() == 1 {
        proof {
            lemma_single_call_is_kept(window@);
        }
        return window;
    }
    let ghost whole = window@;
    let mut pending = window;
    let mut kept: Vec<Variant<P>> = Vec::new();
    let mut taken = empty_set();
    assert(coverage(kept@) =~= Set::<int>::empty());
    while pending.len() > 0
        invariant
            resolve_from(pending@, kept@) == resolved(whole),
            covered(taken) == coverage(kept@),
        decreases pending.len(),
    {
        let choice = next_choice(&pending);
        let ghost before = pending@;
        let ghost so_far = kept@;
        let next = pending.remove(choice);
        assert(next == before[choice as int]);
        if next.marks_point() {
            if !holds_point(&taken, next.start) {
                proof {
                    lemma_coverage_push(so_far, next);
                    assert(next.footprint() =~= Set::<int>::empty());
                    assert(coverage(so_far).union(next.footprint()) =~= coverage(so_far));
                }
                kept.push(next);
            }
        } else {
            let footprint = range_set(next.start, next.end - 1);
            assert(covered(footprint) =~= next.footprint());
            if !shares_point(&footprint, &taken) {
                proof {
                    lemma_coverage_push(so_far, next);
                }
                taken = united(&taken, &footprint);
                kept.push(next);
            }
        }
    }
    kept
}

/// The next call to look at lies in the window, no call of the window
/// outranks it, and it outranks every call that stands before it.
pub proof fn lemma_first_choice_is_best<P>(pending: Seq<Variant<P>>)
    requires
        pending.len() > 0,
    ensures
        0 <= first_choice(pending) < pending.len(),
        forall|j: int|
            0 <= j < pending.len() ==> !(#[trigger] pending[j]).outranks(
                &pending[first_choice(pending)],
            ),
        forall|j: int|
            #![trigger pending[j]]
            0 <= j < first_choice(pending) ==> pending[first_choice(pending)].outranks(&pending[j]),
    decreases pending.len(),
{
    if pending.len() > 1 {
        let shorter = pending.drop_last();
        lemma_first_choice_is_best(shorter);
        let earlier = first_choice(shorter);
        assert(pending[earlier] == shorter[earlier]);
        assert forall|j: int| 0 <= j < pending.len() implies !(#[trigger] pending[j]).outranks(
            &pending[first_choice(pending)],
        ) by {
            if j < pending.len() - 1 {
                assert(pending[j] == shorter[j]);
            }
        }
        assert forall|j: int|
            #![trigger pending[j]]
            0 <= j < first_choice(pending) implies pending[first_choice(pending)].outranks(
            &pending[j],
        ) by {
            assert(pending[j] == shorter[j]);
        }
    }
}

/// Keeping one more call adds exactly its footprint to the taken coordinates.
pub proof fn lemma_coverage_push<P>(kept: Seq<Variant<P>>, next: Variant<P>)
    ensures
        coverage(kept.push(next)) == coverage(kept).union(next.footprint()),
{
    let longer = kept.push(next);
    assert forall|x: int| coverage(longer).contains(x) implies coverage(kept).union(
        next.footprint(),
    ).contains(x) by {
        let i = choose|i: int| 0 <= i < longer.len() && #[trigger] longer[i].footprint().contains(x);
        if i < kept.len() {
            assert(kept[i].footprint().contains(x));
        }
    }
    assert forall|x: int| coverage(kept).union(next.footprint()).contains(x) implies coverage(
        longer,
    ).contains(x) by {
        if coverage(kept).contains(x) {
            let i = choose|i: int| 0 <= i < kept.len() && #[trigger] kept[i].footprint().contains(x);
            assert(longer[i].footprint().contains(x));
        } else {
            assert(longer[kept.len() as int].footprint().contains(x));
        }
    }
    assert(coverage(longer) =~= coverage(kept).union(next.footprint()));
}

/// A window with exactly one call keeps it.
pub proof fn lemma_single_call_is_kept<P>(window: Seq<Variant<P>>)
    requires
        window.len() == 1,
    ensures
        resolved(window) == window,
{
    let nothing = Seq::<Variant<P>>::empty();
    assert(first_choice(window) == 0);
    assert(!window[0].blocked_by(coverage(nothing)));
    assert(window.remove(0).len() == 0);
    assert(nothing.push(window[0]) =~= window);
    assert(resolve_from(window.remove(0), nothing.push(window[0])) == nothing.push(window[0]));
}

} // verus!
