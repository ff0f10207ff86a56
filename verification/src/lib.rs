//! Duplicate resolution for haplotype-phased variant calls.
//!
//! A stream of decoded records is filtered down to the calls that carry the
//! variant allele on one haplotype, grouped into windows of chained
//! overlapping footprints, thinned so that only the most confident call of
//! each overlapping region survives, and handed back in stream order.
//!
//! * [`variant`]: records, calls and the haplotype filter.
//! * [`window`]: the window accumulator and a whole pass.
//! * [`resolver`]: duplicate resolution within a window.
//! * [`orderer`]: putting kept calls back into stream order.
//! * [`accepted`]: the interval set that resolution keeps its coordinates in.
//! * [`naming`]: output file names and formats.
//! * [`cli`]: the arguments of a run and the outcome of its two passes.
//! * [`resolver_laws`], [`pass_laws`]: what resolution and a pass guarantee.

pub mod accepted;
pub mod variant;
pub mod resolver;
pub mod resolver_laws;
pub mod orderer;
pub mod window;
pub mod pass_laws;
pub mod naming;
pub mod cli;
