//! Records as the reader decodes them, and the calls that one haplotype
//! carries.

use vstd::prelude::*;

verus! {

/// The allele index that marks a call as the variant on a haplotype.
pub const VARIANT_ALLELE: u32 = 1;

/// One of the two phased chromosome copies of a diploid sample.
#[derive(Clone, Copy, Debug, PartialEq, Eq, Structural)]
pub enum HaplotypeSlot {
    Zero,
    One,
}

/// The allele index on each haplotype of a phased genotype; `None` where the
/// record leaves the allele out.
#[derive(Clone, Copy, Debug, PartialEq, Eq, Structural)]
pub struct PhasedGenotype {
    pub first: Option<u32>,
    pub second: Option<u32>,
}

impl PhasedGenotype {
    /// The allele index on the given haplotype.
    pub open spec fn spec_allele(self, slot: HaplotypeSlot) -> Option<u32> {
        match slot {
            HaplotypeSlot::Zero => self.first,
            HaplotypeSlot::One => self.second,
        }
    }

    /// Whether the given haplotype carries the variant allele.
    pub open spec fn spec_carries_variant(self, slot: HaplotypeSlot) -> bool {
        self.spec_allele(slot) == Some(VARIANT_ALLELE)
    }

    /// The allele index on the given haplotype.
    #[verifier::when_used_as_spec(spec_allele)]
    pub fn allele(self, slot: HaplotypeSlot) -> (allele: Option<u32>)
        ensures
            allele == self.spec_allele(slot),
    {
        match slot {
            HaplotypeSlot::Zero => self.first,
            HaplotypeSlot::One => self.second,
        }
    }

    /// Whether the given haplotype carries the variant allele.
    #[verifier::when_used_as_spec(spec_carries_variant)]
    pub fn carries_variant(self, slot: HaplotypeSlot) -> (carried: bool)
        ensures
            carried == self.spec_carries_variant(slot),
    {
        match self.allele(slot) {
            Some(allele) => allele == VARIANT_ALLELE,
            None => false,
        }
    }
}

/// What the core reads of one decoded record, with the record itself carried
/// along untouched as `payload`.
#[derive(Clone, Debug, PartialEq, Eq)]
pub struct Record<P> {
    /// Identifier of the reference sequence.
    pub chromosome: u32,
    /// Zero-based position of the first reference base.
    pub position: u32,
    /// Number of reference bases that the call replaces.
    pub length: u32,
    /// Allele indexes of the phased genotype.
    pub genotype: PhasedGenotype,
    /// Confidence annotation, `None` where the record has none.
    pub confidence: Option<u32>,
    /// The record as it was read.
    pub payload: P,
}

/// One call on the haplotype under analysis.
#[derive(Clone, Debug, PartialEq, Eq)]
pub struct Variant<P> {
    /// Position of the record in the stream, counted over the records of the
    /// requested chromosomes.
    pub index: u64,
    /// Identifier of the reference sequence.
    pub chromosome: u32,
    /// First coordinate of the footprint `[start, end)`.
    pub start: u32,
    /// Coordinate after the last one of the footprint.
    pub end: u32,
    /// Confidence of the call, 0 where the record had none.
    pub score: u32,
    /// The record as it was read.
    pub payload: P,
}

impl<P> Record<P> {
    /// The footprint `[position, position + length)` stays within `u32`.
    pub open spec fn well_formed(&self) -> bool {
        self.position + self.length <= u32::MAX
    }

    /// The coordinate after the last reference base.
    pub open spec fn spec_end(&self) -> int {
        self.position + self.length
    }

    /// The confidence of the call: the annotation, or 0 without one.
    pub open spec fn spec_score(&self) -> u32 {
        match self.confidence {
            Some(score) => score,
            None => 0,
        }
    }

    /// Whether the record lies on the requested chromosome; every record does
    /// when none is requested.
    pub open spec fn spec_in_scope(&self, restriction: Option<u32>) -> bool {
        match restriction {
            Some(chromosome) => self.chromosome == chromosome,
            None => true,
        }
    }

    /// The call that this record makes when it is the `index`-th of the
    /// stream.
    pub open spec fn variant_at(self, index: u64) -> Variant<P> {
        Variant {
            index,
            chromosome: self.chromosome,
            start: self.position,
            end: self.spec_end() as u32,
            score: self.spec_score(),
            payload: self.payload,
        }
    }

    /// What the haplotype filter makes of a record in scope: its call, if
    /// the haplotype carries the variant allele.
    pub open spec fn spec_select(self, slot: HaplotypeSlot, index: u64) -> Option<Variant<P>> {
        if self.genotype.spec_carries_variant(slot) {
            Some(self.variant_at(index))
        } else {
            None
        }
    }

    /// Whether the footprint fits the coordinate type.
    #[verifier::when_used_as_spec(well_formed)]
    pub fn is_well_formed(&self) -> (fits: bool)
        ensures
            fits == self.well_formed(),
    {
        self.length <= u32::MAX - self.position
    }

    /// The coordinate after the last reference base.
    pub fn end(&self) -> (end: u32)
        requires
            self.well_formed(),
        ensures
            end == self.spec_end(),
    {
        self.position + self.length
    }

    /// The confidence of the call: the annotation, or 0 without one.
    #[verifier::when_used_as_spec(spec_score)]
    pub fn score(&self) -> (score: u32)
        ensures
            score == self.spec_score(),
    {
        match self.confidence {
            Some(score) => score,
            None => 0,
        }
    }

    /// Whether the record lies on the requested chromosome.
    #[verifier::when_used_as_spec(spec_in_scope)]
    pub fn in_scope(&self, restriction: Option<u32>) -> (inside: bool)
        ensures
            inside == self.spec_in_scope(restriction),
    {
        match restriction {
            Some(chromosome) => self.chromosome == chromosome,
            None => true,
        }
    }

    /// Turns the record into the call it makes as the `index`-th of the
    /// stream, moving the payload over.
    pub fn into_variant(self, index: u64) -> (variant: Variant<P>)
        requires
            self.well_formed(),
        ensures
            variant == self.variant_at(index),
    {
        let end = self.end();
        let score = self.score();
        Variant {
            index,
            chromosome: self.chromosome,
            start: self.position,
            end,
            score,
            payload: self.payload,
        }
    }

    /// The haplotype filter, for a record in scope: hands back the call of a
    /// record whose target haplotype carries the variant allele, and nothing
    /// for any other record.
    pub fn select(self, slot: HaplotypeSlot, index: u64) -> (selected: Option<Variant<P>>)
        requires
            self.well_formed(),
        ensures
            selected == self.spec_select(slot, index),
    {
        if self.genotype.carries_variant(slot) {
            Some(self.into_variant(index))
        } else {
            None
        }
    }
}

impl<P> Variant<P> {
    /// The footprint holds no coordinate: the call marks a point between two
    /// bases.
    pub open spec fn is_point(&self) -> bool {
        self.end <= self.start
    }

    /// The coordinates of the footprint `[start, end)`.
    pub open spec fn footprint(&self) -> Set<int> {
        Set::new(|x: int| self.start <= x < self.end)
    }

    /// Whether the call collides with coordinates that are already taken. A
    /// point collides when its coordinate is taken; any other call collides
    /// when one of its coordinates is.
    pub open spec fn blocked_by(&self, taken: Set<int>) -> bool {
        if self.is_point() {
            taken.contains(self.start as int)
        } else {
            !self.footprint().disjoint(taken)
        }
    }

    /// Whether the two footprints share a coordinate.
    pub open spec fn overlaps(&self, other: &Variant<P>) -> bool {
        self.start < other.end && other.start < self.end && self.start < self.end && other.start
            < other.end
    }

    /// Whether this call is looked at before `other`: the higher score goes
    /// first, and among equal scores the lower stream index.
    pub open spec fn outranks(&self, other: &Variant<P>) -> bool {
        self.score > other.score || (self.score == other.score && self.index < other.index)
    }

    /// Whether the footprint holds no coordinate.
    #[verifier::when_used_as_spec(is_point)]
    pub fn marks_point(&self) -> (point: bool)
        ensures
            point == self.is_point(),
    {
        self.end <= self.start
    }

    /// Whether this call is looked at before `other`.
    #[verifier::when_used_as_spec(outranks)]
    pub fn goes_before(&self, other: &Variant<P>) -> (first: bool)
        ensures
            first == self.outranks(other),
    {
        self.score > other.score || (self.score == other.score && self.index < other.index)
    }
}

} // verus!
