//! What a run is asked to do, and what two passes come to.

use vstd::prelude::*;
use vstd::string::*;
use crate::naming::{gen_output_filename, output_name, recognized_format, OutputTarget, PassError};
use crate::variant::{HaplotypeSlot, Record, Variant};
use crate::window::{pass_output, solve_chromosome};

verus! {

/// The options of a command line, as they were found on it.
#[derive(Clone, Debug, PartialEq, Eq)]
pub struct ParsedOptions {
    /// The help flag was given.
    pub help: bool,
    /// The version flag was given.
    pub version: bool,
    /// The value of the output option.
    pub output: Option<String>,
    /// The value of the chromosome option.
    pub chromosome: Option<String>,
    /// The multi-thread flag was given.
    pub thread: bool,
    /// The arguments that belong to no option.
    pub free: Vec<String>,
}

/// What to print instead of running.
#[derive(Clone, Copy, Debug, PartialEq, Eq, Structural)]
pub enum Notice {
    /// The usage text.
    Usage,
    /// The version line.
    Version,
}

/// The arguments of a run.
#[derive(Clone, Debug, PartialEq, Eq)]
pub struct Args {
    /// Whether the two passes run side by side.
    pub flag_thread: bool,
    /// The path given for the output, if one was given.
    pub arg_output: Option<String>,
    /// The path of the input file.
    pub arg_input: String,
    /// The name of the chromosome that the run is restricted to, if any.
    pub arg_chr: Option<String>,
}

impl Args {
    /// The path from which the output names derive: the output path where
    /// one was given, the input path otherwise.
    pub open spec fn spec_output_path(&self) -> String {
        match self.arg_output {
            Some(path) => path,
            None => self.arg_input,
        }
    }

    /// The path from which the output names derive: the output path where
    /// one was given, the input path otherwise.
    pub fn output_path(&self) -> (path: &String)
        ensures
            *path == self.spec_output_path(),
    {
        match &self.arg_output {
            Some(path) => path,
            None => &self.arg_input,
        }
    }

    /// The file that the pass over one haplotype writes.
    pub fn target(&self, slot: HaplotypeSlot) -> (target: Result<OutputTarget, PassError>)
        ensures
            match recognized_format(self.spec_output_path()@) {
                Some(format) => target matches Ok(file) && file.format == format && file.path@
                    == output_name(self.spec_output_path()@, slot.spec_suffix(), format),
                None => target matches Err(PassError::UnrecognizedOutputExtension(path)) && path@
                    == self.spec_output_path()@,
            },
    {
        let suffix = slot.suffix();
        gen_output_filename(self.output_path(), &suffix)
    }
}

/// Decides what a command line asks for. The help flag asks for the usage
/// text, the version flag for the version line. Otherwise the first free
/// argument is the input of a run, and without one the usage text is due.
pub fn option_parser(options: ParsedOptions) -> (asked: Result<Args, Notice>)
    ensures
        match asked {
            Ok(args) => !options.help && !options.version && options.free@.len() > 0
                && args.arg_input == options.free@[0] && args.arg_output == options.output
                && args.arg_chr == options.chromosome && args.flag_thread == options.thread,
            Err(Notice::Usage) => options.help || (!options.version && options.free@.len() == 0),
            Err(Notice::Version) => !options.help && options.version,
        },
{
    if options.help {
        return Err(Notice::Usage);
    }
    if options.version {
        return Err(Notice::Version);
    }
    let mut free = options.free;
    if free.len() == 0 {
        return Err(Notice::Usage);
    }
    let input = free.swap_remove(0);
    Ok(
        Args {
            flag_thread: options.thread,
            arg_output: options.output,
            arg_input: input,
            arg_chr: options.chromosome,
        },
    )
}

/// The first line of the usage text.
pub fn usage_brief(program: &str) -> (brief: String)
    ensures
        brief@ == "Usage: "@ + program@ + " FILE [options]"@,
{
    let mut brief = String::from_str("Usage: ");
    brief.append(program);
    brief.append(" FILE [options]");
    brief
}

/// The header line that marks a file as filtered by this tool.
pub fn header_annotation(version: &str) -> (line: String)
    ensures
        line@ == "##vcf-phenotype-quality-filter="@ + version@,
{
    let mut line = String::from_str("##vcf-phenotype-quality-filter=");
    line.append(version);
    line
}

/// What one pass wrote, and where it goes.
pub struct PassReport<P> {
    /// The file to write.
    pub target: OutputTarget,
    /// The calls to write, in the order in which to write them.
    pub written: Vec<Variant<P>>,
}

/// Runs the pass over haplotype 0 and then the pass over haplotype 1, each on
/// its own reading of the input. Neither pass runs when the output path has
/// no supported extension.
pub fn run_sequencial<P>(
    args: &Args,
    restriction: Option<u32>,
    first_reading: Vec<Record<P>>,
    second_reading: Vec<Record<P>>,
) -> (reports: Result<(PassReport<P>, PassReport<P>), PassError>)
    requires
        forall|i: int|
            0 <= i < first_reading.len() ==> (#[trigger] first_reading[i]).well_formed(),
        forall|i: int|
            0 <= i < second_reading.len() ==> (#[trigger] second_reading[i]).well_formed(),
    ensures
        match recognized_format(args.spec_output_path()@) {
            Some(format) => reports matches Ok((zero, one)) && zero.target.format == format
                && one.target.format == format && zero.target.path@ == output_name(
                args.spec_output_path()@,
                HaplotypeSlot::Zero.spec_suffix(),
                format,
            ) && one.target.path@ == output_name(
                args.spec_output_path()@,
                HaplotypeSlot::One.spec_suffix(),
                format,
            ) && zero.written@ == pass_output(HaplotypeSlot::Zero, restriction, first_reading@)
                && one.written@ == pass_output(HaplotypeSlot::One, restriction, second_reading@),
            None => reports matches Err(PassError::UnrecognizedOutputExtension(path)) && path@
                == args.spec_output_path()@,
        },
{
    let zero_target = match args.target(HaplotypeSlot::Zero) {
        Ok(target) => target,
        Err(error) => {
            return Err(error);
        },
    };
    let one_target = match args.target(HaplotypeSlot::One) {
        Ok(target) => target,
        Err(error) => {
            return Err(error);
        },
    };
    let zero = PassReport {
        target: zero_target,
        written: solve_chromosome(HaplotypeSlot::Zero, restriction, first_reading),
    };
    let one = PassReport {
        target: one_target,
        written: solve_chromosome(HaplotypeSlot::One, restriction, second_reading),
    };
    Ok((zero, one))
}

/// What two passes come to together: success where both succeeded, else the
/// failure of the first pass that failed. Neither pass keeps the other from
/// running.
pub fn overall_outcome(first: Result<(), PassError>, second: Result<(), PassError>) -> (overall:
    Result<(), PassError>)
    ensures
        overall is Ok <==> first is Ok && second is Ok,
        first is Err ==> overall == first,
        first is Ok ==> overall == second,
{
    match first {
        Ok(_) => second,
        Err(error) => Err(error),
    }
}

} // verus!
