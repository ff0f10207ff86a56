//! Grouping the stream into windows, and one pass over a stream.
//!
//! Consecutive records belong to one window as long as each starts no later
//! than the furthest end seen in the window and lies on the same chromosome.
//! When a record opens a new window, the window before it is resolved and
//! written.

use vstd::prelude::*;
use crate::orderer::{in_stream_order, order_by_index};
use crate::resolver::{resolve_duplication, resolved};
use crate::variant::{HaplotypeSlot, Record, Variant};

verus! {

/// What a window writes once it is complete: the calls that resolution
/// keeps, in stream order.
pub open spec fn emitted<P>(window: Seq<Variant<P>>) -> Seq<Variant<P>> {
    in_stream_order(resolved(window))
}

/// Resolves one complete window and puts the kept calls in stream order.
pub fn resolve_window<P>(window: Vec<Variant<P>>) -> (written: Vec<Variant<P>>)
    ensures
        written@ == emitted(window@),
{
    order_by_index(resolve_duplication(window))
}

/// The state of a pass between two records.
pub ghost struct PassState<P> {
    /// The haplotype under analysis.
    pub slot: HaplotypeSlot,
    /// The chromosome that the pass is restricted to, if any.
    pub restriction: Option<u32>,
    /// The furthest end among the records of the open window.
    pub previous_end: u32,
    /// The chromosome of the last record, `None` before the first.
    pub previous_chromosome: Option<u32>,
    /// The stream index that the next record gets.
    pub next_index: u64,
    /// The calls of the open window, in stream order.
    pub window: Seq<Variant<P>>,
}

impl<P> PassState<P> {
    /// The state before the first record.
    pub open spec fn initial(slot: HaplotypeSlot, restriction: Option<u32>) -> PassState<P> {
        PassState {
            slot,
            restriction,
            previous_end: 0,
            previous_chromosome: None,
            next_index: 0,
            window: Seq::empty(),
        }
    }

    /// Whether the record opens a new window: it starts past everything seen
    /// in the open window, or lies on another chromosome than the record
    /// before it.
    pub open spec fn opens_window(self, record: Record<P>) -> bool {
        self.previous_end < record.position || self.previous_chromosome != Some(record.chromosome)
    }

    /// The state after a record. A record off the requested chromosome
    /// leaves the state as it is. Any other record gets the next stream
    /// index and moves the window bounds, whether or not the haplotype
    /// carries its variant allele; only a carried call joins the window.
    pub open spec fn after(self, record: Record<P>) -> PassState<P> {
        if !record.spec_in_scope(self.restriction) {
            self
        } else {
            let open = if self.opens_window(record) {
                Seq::empty()
            } else {
                self.window
            };
            PassState {
                slot: self.slot,
                restriction: self.restriction,
                previous_end: if self.opens_window(record) || self.previous_end
                    < record.spec_end() {
                    record.spec_end() as u32
                } else {
                    self.previous_end
                },
                previous_chromosome: Some(record.chromosome),
                next_index: (self.next_index + 1) as u64,
                window: match record.spec_select(self.slot, self.next_index) {
                    Some(call) => open.push(call),
                    None => open,
                },
            }
        }
    }

    /// What a record causes to be written: the window before it, resolved,
    /// where the record opens a new one.
    pub open spec fn written_at(self, record: Record<P>) -> Seq<Variant<P>> {
        if record.spec_in_scope(self.restriction) && self.opens_window(record) {
            emitted(self.window)
        } else {
            Seq::empty()
        }
    }

    /// The state after a sequence of records.
    pub open spec fn after_all(self, records: Seq<Record<P>>) -> PassState<P>
        decreases records.len(),
    {
        if records.len() == 0 {
            self
        } else {
            self.after_all(records.drop_last()).after(records.last())
        }
    }

    /// Everything that a sequence of records causes to be written.
    pub open spec fn written_during(self, records: Seq<Record<P>>) -> Seq<Variant<P>>
        decreases records.len(),
    {
        if records.len() == 0 {
            Seq::empty()
        } else {
            self.written_during(records.drop_last()) + self.after_all(
                records.drop_last(),
            ).written_at(records.last())
        }
    }
}

/// What one pass over a stream writes: the output of every window that the
/// stream completes, and of the window left open at its end.
pub open spec fn pass_output<P>(
    slot: HaplotypeSlot,
    restriction: Option<u32>,
    records: Seq<Record<P>>,
) -> Seq<Variant<P>> {
    let start = PassState::<P>::initial(slot, restriction);
    start.written_during(records) + emitted(start.after_all(records).window)
}

/// The records of a stream that lie on the requested chromosome, in stream
/// order.
pub open spec fn in_scope_only<P>(records: Seq<Record<P>>, restriction: Option<u32>) -> Seq<
    Record<P>,
> {
    records.filter(|record: Record<P>| record.spec_in_scope(restriction))
}

/// The calls that the haplotype filter lets through, in stream order: one
/// for each record in scope whose haplotype carries the variant allele, with
/// the record's place among the records in scope as its stream index.
pub open spec fn survivors<P>(
    slot: HaplotypeSlot,
    restriction: Option<u32>,
    records: Seq<Record<P>>,
) -> Seq<Variant<P>>
    decreases records.len(),
{
    if records.len() == 0 {
        Seq::empty()
    } else {
        let earlier = records.drop_last();
        let before = survivors(slot, restriction, earlier);
        let index = in_scope_only(earlier, restriction).len() as u64;
        if records.last().spec_in_scope(restriction) {
            match records.last().spec_select(slot, index) {
                Some(call) => before.push(call),
                None => before,
            }
        } else {
            before
        }
    }
}

/// Collects the calls of the open window while a stream is read.
pub struct WindowAccumulator<P> {
    slot: HaplotypeSlot,
    restriction: Option<u32>,
    previous_end: u32,
    previous_chromosome: Option<u32>,
    next_index: u64,
    window: Vec<Variant<P>>,
}

impl<P> View for WindowAccumulator<P> {
    type V = PassState<P>;

    closed spec fn view(&self) -> PassState<P> {
        PassState {
            slot: self.slot,
            restriction: self.restriction,
            previous_end: self.previous_end,
            previous_chromosome: self.previous_chromosome,
            next_index: self.next_index,
            window: self.window@,
        }
    }
}

impl<P> WindowAccumulator<P> {
    /// An accumulator that has seen no record.
    pub fn new(slot: HaplotypeSlot, restriction: Option<u32>) -> (accumulator: Self)
        ensures
            accumulator@ == PassState::<P>::initial(slot, restriction),
    {
        WindowAccumulator {
            slot,
            restriction,
            previous_end: 0,
            previous_chromosome: None,
            next_index: 0,
            window: Vec::new(),
        }
    }

    /// The stream index that the next record gets.
    pub fn next_index(&self) -> (index: u64)
        ensures
            index == self@.next_index,
    {
        self.next_index
    }

    /// The number of calls in the open window.
    pub fn pending(&self) -> (count: usize)
        ensures
            count == self@.window.len(),
    {
        self.window.len()
    }

    /// Takes the next record of the stream and hands back what is to be
    /// written before it: the resolved window that the record closes, or
    /// nothing.
    pub fn ingest(&mut self, record: Record<P>) -> (written: Vec<Variant<P>>)
        requires
            record.well_formed(),
            old(self)@.next_index < u64::MAX,
        ensures
            final(self)@ == old(self)@.after(record),
            written@ == old(self)@.written_at(record),
    {
        if !record.in_scope(self.restriction) {
            return Vec::new();
        }
        let end = record.end();
        let same_chromosome = match self.previous_chromosome {
            Some(chromosome) => chromosome == record.chromosome,
            None => false,
        };
        let mut written: Vec<Variant<P>> = Vec::new();
        if self.previous_end < record.position || !same_chromosome {
            let mut complete: Vec<Variant<P>> = Vec::new();
            std::mem::swap(&mut self.window, &mut complete);
            written = resolve_window(complete);
            self.previous_end = end;
        } else if self.previous_end < end {
            self.previous_end = end;
        }
        self.previous_chromosome = Some(record.chromosome);
        let index = self.next_index;
        self.next_index = index + 1;
        match record.select(self.slot, index) {
            Some(call) => self.window.push(call),
            None => {},
        }
        written
    }

    /// Ends the stream: hands back the resolved open window.
    pub fn finish(self) -> (written: Vec<Variant<P>>)
        ensures
            written@ == emitted(self@.window),
    {
        resolve_window(self.window)
    }
}

/// Runs one pass over a stream held in memory and hands back everything it
/// writes, in the order in which it is written.
pub fn solve_chromosome<P>(
    slot: HaplotypeSlot,
    restriction: Option<u32>,
    records: Vec<Record<P>>,
) -> (written: Vec<Variant<P>>)
    requires
        forall|i: int| 0 <= i < records.len() ==> (#[trigger] records[i]).well_formed(),
    ensures
        written@ == pass_output(slot, restriction, records@),
{
    let ghost start = PassState::<P>::initial(slot, restriction);
    let ghost all = records@;
    let count = records.len();
    let mut accumulator = WindowAccumulator::new(slot, restriction);
    let mut written: Vec<Variant<P>> = Vec::with_capacity(count);
    assert(all.subrange(0, 0) =~= Seq::empty());
    for record in it: records.into_iter()
        invariant
            it.seq() == all,
            forall|i: int| 0 <= i < all.len() ==> (#[trigger] all[i]).well_formed(),
            all.len() == count,
            accumulator@ == start.after_all(all.subrange(0, it.index())),
            written@ == start.written_during(all.subrange(0, it.index())),
            accumulator@.next_index <= it.index(),
    {
        assert(all.subrange(0, it.index() + 1).drop_last() =~= all.subrange(0, it.index()));
        assert(all.subrange(0, it.index() + 1).last() == record);
        let mut batch = accumulator.ingest(record);
        written.append(&mut batch);
    }
    assert(all.subrange(0, all.len() as int) =~= all);
    let mut rest = accumulator.finish();
    written.append(&mut rest);
    written
}

} // verus!
