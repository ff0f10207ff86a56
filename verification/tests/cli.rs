use vcf_haplotype_filter::cli::{
    header_annotation, option_parser, overall_outcome, run_sequencial, usage_brief, Args, Notice,
    ParsedOptions,
};
use vcf_haplotype_filter::naming::{OutputFormat, PassError};
use vcf_haplotype_filter::variant::{HaplotypeSlot, PhasedGenotype, Record};

fn options(free: &[&str]) -> ParsedOptions {
    ParsedOptions {
        help: false,
        version: false,
        output: None,
        chromosome: None,
        thread: false,
        free: free.iter().map(|s| s.to_string()).collect(),
    }
}

fn args(input: &str, output: Option<&str>) -> Args {
    Args {
        flag_thread: false,
        arg_output: output.map(|s| s.to_string()),
        arg_input: input.to_string(),
        arg_chr: None,
    }
}

fn record(start: u32, first: u32, second: u32, tag: u8) -> Record<u8> {
    Record {
        chromosome: 0,
        position: start,
        length: 1,
        genotype: PhasedGenotype { first: Some(first), second: Some(second) },
        confidence: Some(1),
        payload: tag,
    }
}

#[test]
fn help_asks_for_the_usage_text() {
    let mut asked = options(&["in.vcf"]);
    asked.help = true;
    asked.version = true;
    assert_eq!(option_parser(asked), Err(Notice::Usage));
}

#[test]
fn version_asks_for_the_version_line() {
    let mut asked = options(&[]);
    asked.version = true;
    assert_eq!(option_parser(asked), Err(Notice::Version));
}

#[test]
fn missing_input_asks_for_the_usage_text() {
    let mut asked = options(&[]);
    asked.output = Some("out.vcf".to_string());
    assert_eq!(option_parser(asked), Err(Notice::Usage));
}

#[test]
fn first_free_argument_is_the_input() {
    let mut asked = options(&["in.vcf", "ignored"]);
    asked.output = Some("out.bcf".to_string());
    asked.chromosome = Some("chr2".to_string());
    asked.thread = true;
    assert_eq!(
        option_parser(asked),
        Ok(Args {
            flag_thread: true,
            arg_output: Some("out.bcf".to_string()),
            arg_input: "in.vcf".to_string(),
            arg_chr: Some("chr2".to_string()),
        })
    );
}

#[test]
fn bare_input_runs_with_defaults() {
    assert_eq!(
        option_parser(options(&["in.vcf.gz"])),
        Ok(Args {
            flag_thread: false,
            arg_output: None,
            arg_input: "in.vcf.gz".to_string(),
            arg_chr: None,
        })
    );
}

#[test]
fn output_names_derive_from_the_input_by_default() {
    let run = args("calls.vcf.gz", None);
    assert_eq!(run.output_path(), "calls.vcf.gz");
    let zero = run.target(HaplotypeSlot::Zero).unwrap();
    assert_eq!(zero.path, "calls_0.vcf.gz");
    assert_eq!(zero.format, OutputFormat::CompressedVcf);
    assert_eq!(run.target(HaplotypeSlot::One).unwrap().path, "calls_1.vcf.gz");
}

#[test]
fn output_names_derive_from_the_output_path_when_given() {
    let run = args("calls.vcf.gz", Some("out/phased.bcf"));
    assert_eq!(run.output_path(), "out/phased.bcf");
    let one = run.target(HaplotypeSlot::One).unwrap();
    assert_eq!(one.path, "out/phased_1.bcf");
    assert_eq!(one.format, OutputFormat::Bcf);
}

#[test]
fn unsupported_output_is_refused_for_either_slot() {
    let run = args("calls.vcf", Some("phased.txt"));
    let refused = Err(PassError::UnrecognizedOutputExtension("phased.txt".to_string()));
    assert_eq!(run.target(HaplotypeSlot::Zero), refused);
    assert_eq!(run.target(HaplotypeSlot::One), refused);
}

#[test]
fn sequential_run_writes_each_haplotype_to_its_file() {
    let reading = vec![record(100, 1, 0, 1), record(100, 1, 1, 2), record(300, 0, 1, 3)];
    let run = args("calls.vcf", None);
    let (zero, one) = match run_sequencial(&run, None, reading.clone(), reading) {
        Ok(reports) => reports,
        Err(error) => panic!("{}", error.message()),
    };
    assert_eq!(zero.target.path, "calls_0.vcf");
    assert_eq!(one.target.path, "calls_1.vcf");
    assert_eq!(zero.target.format, OutputFormat::Vcf);
    assert_eq!(one.target.format, OutputFormat::Vcf);
    let on_zero: Vec<u8> = zero.written.iter().map(|v| v.payload).collect();
    let on_one: Vec<u8> = one.written.iter().map(|v| v.payload).collect();
    assert_eq!(on_zero, vec![1]);
    assert_eq!(on_one, vec![2, 3]);
}

#[test]
fn sequential_run_stops_before_any_pass_on_an_unsupported_output() {
    let run = args("calls.vcf", Some("phased.sam"));
    let reports = run_sequencial(&run, None, vec![record(1, 1, 1, 1)], vec![record(1, 1, 1, 1)]);
    match reports {
        Err(error) => {
            assert_eq!(error, PassError::UnrecognizedOutputExtension("phased.sam".to_string()))
        }
        Ok(_) => panic!("an unsupported extension was accepted"),
    }
}

#[test]
fn overall_outcome_is_success_only_when_both_passes_succeed() {
    assert_eq!(overall_outcome(Ok(()), Ok(())), Ok(()));
    assert_eq!(
        overall_outcome(Err(PassError::RecordDecodeFailure), Ok(())),
        Err(PassError::RecordDecodeFailure)
    );
    assert_eq!(
        overall_outcome(Ok(()), Err(PassError::RecordWriteFailure)),
        Err(PassError::RecordWriteFailure)
    );
    assert_eq!(
        overall_outcome(Err(PassError::InputNotFound), Err(PassError::RecordWriteFailure)),
        Err(PassError::InputNotFound)
    );
}

#[test]
fn usage_brief_names_the_program() {
    assert_eq!(usage_brief("vcfdedup"), "Usage: vcfdedup FILE [options]");
}

#[test]
fn header_annotation_carries_the_version() {
    assert_eq!(header_annotation("0.1.0"), "##vcf-phenotype-quality-filter=0.1.0");
}
