use vcf_haplotype_filter::variant::{HaplotypeSlot, PhasedGenotype, Record, Variant, VARIANT_ALLELE};
use vcf_haplotype_filter::window::{solve_chromosome, WindowAccumulator};

fn carried() -> PhasedGenotype {
    PhasedGenotype { first: Some(1), second: Some(0) }
}

fn call(chromosome: u32, start: u32, end: u32, score: u32, tag: &'static str) -> Record<&'static str> {
    Record {
        chromosome,
        position: start,
        length: end - start,
        genotype: carried(),
        confidence: Some(score),
        payload: tag,
    }
}

fn tags(written: &[Variant<&'static str>]) -> Vec<&'static str> {
    written.iter().map(|v| v.payload).collect()
}

fn indexes(written: &[Variant<&'static str>]) -> Vec<u64> {
    written.iter().map(|v| v.index).collect()
}

#[test]
fn same_site_keeps_the_more_confident_call() {
    let records = vec![
        call(0, 100, 101, 30, "V0"),
        call(0, 100, 101, 50, "V1"),
        call(0, 200, 201, 10, "V2"),
    ];
    let written = solve_chromosome(HaplotypeSlot::Zero, None, records);
    assert_eq!(tags(&written), vec!["V1", "V2"]);
    assert_eq!(indexes(&written), vec![1, 2]);
}

#[test]
fn same_site_is_one_window_and_the_far_call_another() {
    let mut accumulator = WindowAccumulator::new(HaplotypeSlot::Zero, None);
    assert_eq!(accumulator.ingest(call(0, 100, 101, 30, "V0")), vec![]);
    assert_eq!(accumulator.ingest(call(0, 100, 101, 50, "V1")), vec![]);
    assert_eq!(accumulator.pending(), 2);
    let first_window = accumulator.ingest(call(0, 200, 201, 10, "V2"));
    assert_eq!(tags(&first_window), vec!["V1"]);
    assert_eq!(accumulator.pending(), 1);
    assert_eq!(tags(&accumulator.finish()), vec!["V2"]);
}

#[test]
fn chained_overlap_is_one_window_of_two() {
    let mut accumulator = WindowAccumulator::new(HaplotypeSlot::Zero, None);
    assert_eq!(accumulator.ingest(call(0, 100, 105, 20, "V0")), vec![]);
    assert_eq!(accumulator.ingest(call(0, 104, 110, 40, "V1")), vec![]);
    assert_eq!(accumulator.pending(), 2);
    assert_eq!(tags(&accumulator.finish()), vec!["V1"]);
}

#[test]
fn different_chromosomes_never_share_a_window() {
    let mut accumulator = WindowAccumulator::new(HaplotypeSlot::Zero, None);
    assert_eq!(accumulator.ingest(call(1, 100, 105, 20, "A")), vec![]);
    let closed = accumulator.ingest(call(2, 100, 105, 40, "B"));
    assert_eq!(tags(&closed), vec!["A"]);
    assert_eq!(accumulator.pending(), 1);
    assert_eq!(tags(&accumulator.finish()), vec!["B"]);
}

#[test]
fn identical_coordinates_on_two_chromosomes_are_both_written() {
    let records = vec![call(1, 100, 105, 20, "A"), call(2, 100, 105, 40, "B")];
    let written = solve_chromosome(HaplotypeSlot::Zero, None, records);
    assert_eq!(tags(&written), vec!["A", "B"]);
    let chromosomes: Vec<u32> = written.iter().map(|v| v.chromosome).collect();
    assert_eq!(chromosomes, vec![1, 2]);
}

#[test]
fn lone_calls_are_both_written() {
    let records = vec![call(0, 100, 105, 20, "A"), call(0, 106, 110, 40, "B")];
    let written = solve_chromosome(HaplotypeSlot::Zero, None, records);
    assert_eq!(
        written,
        vec![
            Variant { index: 0, chromosome: 0, start: 100, end: 105, score: 20, payload: "A" },
            Variant { index: 1, chromosome: 0, start: 106, end: 110, score: 40, payload: "B" },
        ]
    );
}

#[test]
fn empty_stream_writes_nothing() {
    let written = solve_chromosome(HaplotypeSlot::One, Some(3), Vec::<Record<&'static str>>::new());
    assert_eq!(written, vec![]);
}

#[test]
fn call_starting_at_the_running_end_joins_the_window() {
    let mut accumulator = WindowAccumulator::new(HaplotypeSlot::Zero, None);
    assert_eq!(accumulator.ingest(call(0, 100, 105, 20, "A")), vec![]);
    assert_eq!(accumulator.ingest(call(0, 105, 110, 40, "B")), vec![]);
    assert_eq!(accumulator.pending(), 2);
    let closed = accumulator.ingest(call(0, 111, 112, 1, "C"));
    assert_eq!(tags(&closed), vec!["A", "B"]);
}

#[test]
fn window_reaches_as_far_as_its_longest_call() {
    // C starts past the end of B, yet within A.
    let records = vec![
        call(0, 100, 200, 50, "A"),
        call(0, 110, 120, 10, "B"),
        call(0, 150, 160, 20, "C"),
    ];
    let mut accumulator = WindowAccumulator::new(HaplotypeSlot::Zero, None);
    for record in records.clone() {
        assert_eq!(accumulator.ingest(record), vec![]);
    }
    assert_eq!(accumulator.pending(), 3);
    assert_eq!(tags(&solve_chromosome(HaplotypeSlot::Zero, None, records)), vec!["A"]);
}

#[test]
fn new_chromosome_starts_its_window_bounds_afresh() {
    // On chromosome 2 the second call starts past the first, though far
    // before the end reached on chromosome 1.
    let mut accumulator = WindowAccumulator::new(HaplotypeSlot::Zero, None);
    assert_eq!(accumulator.ingest(call(1, 5000, 6000, 1, "far")), vec![]);
    assert_eq!(tags(&accumulator.ingest(call(2, 100, 101, 1, "A"))), vec!["far"]);
    assert_eq!(tags(&accumulator.ingest(call(2, 200, 201, 1, "B"))), vec!["A"]);
    assert_eq!(tags(&accumulator.finish()), vec!["B"]);
}

#[test]
fn restriction_drops_the_other_chromosomes() {
    let records = vec![
        call(1, 100, 101, 30, "a"),
        call(2, 100, 101, 30, "b"),
        call(1, 300, 301, 30, "c"),
        call(3, 100, 101, 30, "d"),
        call(2, 500, 501, 30, "e"),
    ];
    let written = solve_chromosome(HaplotypeSlot::Zero, Some(2), records);
    assert_eq!(tags(&written), vec!["b", "e"]);
    assert!(written.iter().all(|v| v.chromosome == 2));
    assert_eq!(indexes(&written), vec![0, 1]);
}

#[test]
fn records_out_of_scope_do_not_move_the_window_bounds() {
    // Without the restriction the long call on chromosome 1 would close the
    // window of "a"; with it, "a" and "b" stay together and "a" loses.
    let records = vec![
        call(2, 100, 110, 10, "a"),
        call(1, 0, 1000, 99, "x"),
        call(2, 105, 115, 20, "b"),
    ];
    let restricted = solve_chromosome(HaplotypeSlot::Zero, Some(2), records.clone());
    assert_eq!(tags(&restricted), vec!["b"]);
    assert_eq!(indexes(&restricted), vec![1]);
    let filtered = vec![records[0].clone(), records[2].clone()];
    assert_eq!(restricted, solve_chromosome(HaplotypeSlot::Zero, Some(2), filtered));
    let free = solve_chromosome(HaplotypeSlot::Zero, None, records);
    assert_eq!(tags(&free), vec!["a", "x", "b"]);
}

#[test]
fn records_out_of_scope_get_no_index() {
    let mut accumulator = WindowAccumulator::new(HaplotypeSlot::Zero, Some(7));
    assert_eq!(accumulator.ingest(call(1, 100, 101, 1, "x")), vec![]);
    assert_eq!(accumulator.next_index(), 0);
    assert_eq!(accumulator.ingest(call(7, 100, 101, 1, "y")), vec![]);
    assert_eq!(accumulator.next_index(), 1);
}

#[test]
fn reference_call_is_dropped_but_counted() {
    let mut reference = call(0, 100, 101, 90, "ref");
    reference.genotype = PhasedGenotype { first: Some(0), second: Some(1) };
    let records = vec![reference, call(0, 100, 101, 10, "alt")];
    let written = solve_chromosome(HaplotypeSlot::Zero, None, records);
    assert_eq!(tags(&written), vec!["alt"]);
    assert_eq!(indexes(&written), vec![1]);
}

#[test]
fn reference_call_still_moves_the_window_bounds() {
    // The dropped middle record bridges "a" and "b" into one window.
    let mut bridge = call(0, 105, 200, 0, "bridge");
    bridge.genotype = PhasedGenotype { first: Some(0), second: Some(0) };
    let mut accumulator = WindowAccumulator::new(HaplotypeSlot::Zero, None);
    assert_eq!(accumulator.ingest(call(0, 100, 110, 5, "a")), vec![]);
    assert_eq!(accumulator.ingest(bridge.clone()), vec![]);
    assert_eq!(accumulator.ingest(call(0, 150, 160, 5, "b")), vec![]);
    assert_eq!(accumulator.pending(), 2);
    assert_eq!(tags(&accumulator.finish()), vec!["a", "b"]);

    // A dropped record past the open window closes it.
    let mut gap = call(0, 500, 501, 0, "gap");
    gap.genotype = PhasedGenotype { first: None, second: None };
    let mut accumulator = WindowAccumulator::new(HaplotypeSlot::Zero, None);
    assert_eq!(accumulator.ingest(call(0, 100, 110, 5, "a")), vec![]);
    assert_eq!(tags(&accumulator.ingest(gap)), vec!["a"]);
    assert_eq!(accumulator.pending(), 0);
}

#[test]
fn each_haplotype_sees_its_own_allele() {
    let mut records = vec![call(0, 100, 101, 30, "on0"), call(0, 300, 301, 30, "on1")];
    records[1].genotype = PhasedGenotype { first: Some(0), second: Some(1) };
    assert_eq!(tags(&solve_chromosome(HaplotypeSlot::Zero, None, records.clone())), vec!["on0"]);
    assert_eq!(tags(&solve_chromosome(HaplotypeSlot::One, None, records)), vec!["on1"]);
}

#[test]
fn only_the_first_alternate_allele_counts() {
    let mut other = call(0, 100, 101, 30, "second alt");
    other.genotype = PhasedGenotype { first: Some(2), second: None };
    assert_eq!(other.genotype.allele(HaplotypeSlot::Zero), Some(2));
    assert_eq!(other.genotype.allele(HaplotypeSlot::One), None);
    assert!(!other.genotype.carries_variant(HaplotypeSlot::Zero));
    assert!(!other.genotype.carries_variant(HaplotypeSlot::One));
    assert!(carried().carries_variant(HaplotypeSlot::Zero));
    assert_eq!(VARIANT_ALLELE, 1);
    assert_eq!(solve_chromosome(HaplotypeSlot::Zero, None, vec![other]), vec![]);
}

#[test]
fn missing_confidence_counts_as_zero() {
    let mut unscored = call(0, 100, 101, 0, "unscored");
    unscored.confidence = None;
    assert_eq!(unscored.score(), 0);
    let records = vec![unscored, call(0, 100, 101, 1, "scored")];
    let written = solve_chromosome(HaplotypeSlot::Zero, None, records);
    assert_eq!(tags(&written), vec!["scored"]);
}

#[test]
fn record_becomes_the_call_over_its_footprint() {
    let record = call(4, 100, 107, 33, "r");
    assert!(record.is_well_formed());
    assert_eq!(record.end(), 107);
    assert!(record.in_scope(None));
    assert!(record.in_scope(Some(4)));
    assert!(!record.in_scope(Some(5)));
    assert_eq!(
        record.clone().into_variant(12),
        Variant { index: 12, chromosome: 4, start: 100, end: 107, score: 33, payload: "r" }
    );
    assert_eq!(record.clone().select(HaplotypeSlot::One, 12), None);
    assert_eq!(
        record.select(HaplotypeSlot::Zero, 12),
        Some(Variant { index: 12, chromosome: 4, start: 100, end: 107, score: 33, payload: "r" })
    );
}

#[test]
fn footprint_must_fit_the_coordinates() {
    let mut record = call(0, u32::MAX - 1, u32::MAX, 0, "edge");
    assert!(record.is_well_formed());
    record.length = 2;
    assert!(!record.is_well_formed());
}

#[test]
fn insertion_point_in_an_accepted_call_is_dropped() {
    let records = vec![call(0, 100, 110, 50, "wide"), call(0, 104, 104, 10, "point")];
    assert_eq!(tags(&solve_chromosome(HaplotypeSlot::Zero, None, records)), vec!["wide"]);
}

#[test]
fn output_is_in_stream_order_across_windows() {
    let records = vec![
        call(0, 100, 110, 1, "a"),
        call(0, 120, 130, 9, "b"),
        call(0, 125, 135, 3, "c"),
        call(0, 134, 140, 5, "d"),
        call(1, 10, 20, 2, "e"),
        call(1, 15, 16, 8, "f"),
        call(1, 19, 30, 4, "g"),
    ];
    let written = solve_chromosome(HaplotypeSlot::Zero, None, records);
    assert_eq!(tags(&written), vec!["a", "b", "d", "f", "g"]);
    assert_eq!(indexes(&written), vec![0, 1, 3, 5, 6]);
}
