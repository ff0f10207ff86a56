use vcf_haplotype_filter::naming::{
    gen_output_filename, with_suffix, OutputFormat, OutputTarget, PassError,
};
use vcf_haplotype_filter::variant::HaplotypeSlot;

#[test]
fn with_suffix_works() {
    assert_eq!(with_suffix("/root/foo", &1.to_string(), ".txt"), "/root/foo_1.txt");
}

#[test]
fn gen_output_filename_works() {
    assert_eq!(gen_output_filename(&0.to_string(), &1.to_string()).is_err(), true)
}

#[test]
fn with_suffix_keeps_empty_parts() {
    assert_eq!(with_suffix("", &String::new(), ""), "_");
    assert_eq!(with_suffix("a", &"xy".to_string(), ""), "a_xy");
}

#[test]
fn compressed_vcf_name_gets_the_suffix_before_the_whole_extension() {
    let target = gen_output_filename(&"/data/sample.vcf.gz".to_string(), &"0".to_string());
    assert_eq!(
        target,
        Ok(OutputTarget {
            path: "/data/sample_0.vcf.gz".to_string(),
            format: OutputFormat::CompressedVcf,
        })
    );
}

#[test]
fn plain_vcf_name() {
    let target = gen_output_filename(&"sample.vcf".to_string(), &"1".to_string());
    assert_eq!(
        target,
        Ok(OutputTarget { path: "sample_1.vcf".to_string(), format: OutputFormat::Vcf })
    );
}

#[test]
fn bcf_name() {
    let target = gen_output_filename(&"out/sample.bcf".to_string(), &"1".to_string());
    assert_eq!(
        target,
        Ok(OutputTarget { path: "out/sample_1.bcf".to_string(), format: OutputFormat::Bcf })
    );
}

#[test]
fn bare_extension_has_an_empty_stem() {
    let target = gen_output_filename(&".vcf".to_string(), &"0".to_string());
    assert_eq!(target, Ok(OutputTarget { path: "_0.vcf".to_string(), format: OutputFormat::Vcf }));
}

#[test]
fn only_the_last_extension_counts() {
    let target = gen_output_filename(&"a.bcf.vcf".to_string(), &"0".to_string());
    assert_eq!(
        target,
        Ok(OutputTarget { path: "a.bcf_0.vcf".to_string(), format: OutputFormat::Vcf })
    );
}

#[test]
fn names_with_wide_characters() {
    let target = gen_output_filename(&"données/échantillon.vcf".to_string(), &"0".to_string());
    assert_eq!(
        target,
        Ok(OutputTarget { path: "données/échantillon_0.vcf".to_string(), format: OutputFormat::Vcf })
    );
}

#[test]
fn unsupported_extension_is_refused_with_the_path() {
    let path = "sample.txt".to_string();
    assert_eq!(
        gen_output_filename(&path, &"0".to_string()),
        Err(PassError::UnrecognizedOutputExtension("sample.txt".to_string()))
    );
}

#[test]
fn extension_must_match_to_the_letter() {
    for path in ["sample.vcf.g", "samplevcf", "sample.VCF", "sample.gz", "sample.vcf ", "vcf", ""] {
        assert_eq!(
            gen_output_filename(&path.to_string(), &"0".to_string()),
            Err(PassError::UnrecognizedOutputExtension(path.to_string()))
        );
    }
}

#[test]
fn a_dot_in_the_extension_is_no_wildcard() {
    assert!(gen_output_filename(&"sample_vcf".to_string(), &"0".to_string()).is_err());
    assert!(gen_output_filename(&"sample.vcfxgz".to_string(), &"0".to_string()).is_err());
}

#[test]
fn formats_know_their_extension_and_writer_settings() {
    assert_eq!(OutputFormat::CompressedVcf.extension(), ".vcf.gz");
    assert_eq!(OutputFormat::Vcf.extension(), ".vcf");
    assert_eq!(OutputFormat::Bcf.extension(), ".bcf");
    assert_eq!(
        (OutputFormat::CompressedVcf.uncompressed(), OutputFormat::CompressedVcf.is_vcf()),
        (false, true)
    );
    assert_eq!((OutputFormat::Vcf.uncompressed(), OutputFormat::Vcf.is_vcf()), (true, true));
    assert_eq!((OutputFormat::Bcf.uncompressed(), OutputFormat::Bcf.is_vcf()), (true, false));
}

#[test]
fn slots_are_named_by_their_digit() {
    assert_eq!(HaplotypeSlot::Zero.suffix(), "0");
    assert_eq!(HaplotypeSlot::One.suffix(), "1");
}

#[test]
fn every_failure_has_its_words() {
    assert_eq!(PassError::InputNotFound.message(), "Error: No input file.");
    assert_eq!(
        PassError::UnrecognizedOutputExtension("x".to_string()).message(),
        "Error opening vcf."
    );
    assert_eq!(PassError::RecordDecodeFailure.message(), "Error reading Vcf file.");
    assert_eq!(PassError::RecordWriteFailure.message(), "Error Writing Vcf file.");
}
