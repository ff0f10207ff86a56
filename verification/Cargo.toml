[package]
name = "vcf_haplotype_filter"
version = "0.1.0"
edition = "2021"
publish = false

[dependencies]
intervallum = "*"
gcollections = "*"
getopts = "=0.2.24"
log = "=0.4.34"
env_logger = "=0.11.11"
rust-htslib = { version = "=1.0.2", default-features = false }
