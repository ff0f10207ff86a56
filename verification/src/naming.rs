//! Names of the output files.
//!
//! Each haplotype is written to a file of its own. Its name is that of the
//! requested output with the haplotype slot set before the extension, and
//! the extension decides the format that is written.

use vstd::prelude::*;
use vstd::string::*;
use crate::variant::HaplotypeSlot;

verus! {

/// The formats that can be written, told apart by file extension.
#[derive(Clone, Copy, Debug, PartialEq, Eq, Structural)]
pub enum OutputFormat {
    /// `.vcf.gz`: compressed text.
    CompressedVcf,
    /// `.vcf`: plain text.
    Vcf,
    /// `.bcf`: binary.
    Bcf,
}

/// Why a pass ended early.
#[derive(Clone, Debug, PartialEq, Eq)]
pub enum PassError {
    /// The input path does not exist.
    InputNotFound,
    /// The output path, given here, has none of the supported extensions.
    UnrecognizedOutputExtension(String),
    /// A record could not be read.
    RecordDecodeFailure,
    /// A record could not be written.
    RecordWriteFailure,
}

/// A file to write one haplotype to.
#[derive(Clone, Debug, PartialEq, Eq)]
pub struct OutputTarget {
    /// Path of the file.
    pub path: String,
    /// Format of the file.
    pub format: OutputFormat,
}

/// Whether `text` ends with `ending`.
pub open spec fn ends_with(text: Seq<char>, ending: Seq<char>) -> bool {
    text.len() >= ending.len() && text.subrange(text.len() - ending.len(), text.len() as int)
        == ending
}

/// The format of an output path: that of the first supported extension the
/// path ends with, none where it ends with no supported extension.
pub open spec fn recognized_format(path: Seq<char>) -> Option<OutputFormat> {
    if ends_with(path, OutputFormat::CompressedVcf.spec_extension()) {
        Some(OutputFormat::CompressedVcf)
    } else if ends_with(path, OutputFormat::Vcf.spec_extension()) {
        Some(OutputFormat::Vcf)
    } else if ends_with(path, OutputFormat::Bcf.spec_extension()) {
        Some(OutputFormat::Bcf)
    } else {
        None
    }
}

/// A file name put together from the part before the extension, an
/// underscore, a suffix and the extension.
pub open spec fn suffixed(stem: Seq<char>, suffix: Seq<char>, extension: Seq<char>) -> Seq<char> {
    stem + seq!['_'] + suffix + extension
}

/// The name of the file for one suffix: the output path with an underscore
/// and the suffix set before its extension.
pub open spec fn output_name(path: Seq<char>, suffix: Seq<char>, format: OutputFormat) -> Seq<
    char,
> {
    suffixed(
        path.subrange(0, path.len() - format.spec_extension().len()),
        suffix,
        format.spec_extension(),
    )
}

impl OutputFormat {
    /// The file extension of the format, with its leading dot.
    pub open spec fn spec_extension(self) -> Seq<char> {
        match self {
            OutputFormat::CompressedVcf => seq!['.', 'v', 'c', 'f', '.', 'g', 'z'],
            OutputFormat::Vcf => seq!['.', 'v', 'c', 'f'],
            OutputFormat::Bcf => seq!['.', 'b', 'c', 'f'],
        }
    }

    /// The file extension of the format, with its leading dot.
    pub fn extension(self) -> (extension: &'static str)
        ensures
            extension@ == self.spec_extension(),
    {
        proof {
            reveal_strlit(".vcf.gz");
            reveal_strlit(".vcf");
            reveal_strlit(".bcf");
        }
        match self {
            OutputFormat::CompressedVcf => {
                assert(".vcf.gz"@ =~= seq!['.', 'v', 'c', 'f', '.', 'g', 'z']);
                ".vcf.gz"
            },
            OutputFormat::Vcf => {
                assert(".vcf"@ =~= seq!['.', 'v', 'c', 'f']);
                ".vcf"
            },
            OutputFormat::Bcf => {
                assert(".bcf"@ =~= seq!['.', 'b', 'c', 'f']);
                ".bcf"
            },
        }
    }

    /// Whether the format is written without compression.
    pub fn uncompressed(self) -> (plain: bool)
        ensures
            plain == (self != OutputFormat::CompressedVcf),
    {
        match self {
            OutputFormat::CompressedVcf => false,
            OutputFormat::Vcf => true,
            OutputFormat::Bcf => true,
        }
    }

    /// Whether the format is text rather than binary.
    pub fn is_vcf(self) -> (text: bool)
        ensures
            text == (self != OutputFormat::Bcf),
    {
        match self {
            OutputFormat::CompressedVcf => true,
            OutputFormat::Vcf => true,
            OutputFormat::Bcf => false,
        }
    }
}

impl PassError {
    /// The words in which the failure is reported.
    pub fn message(&self) -> (words: &'static str)
        ensures
            words@ == match self {
                PassError::InputNotFound => "Error: No input file."@,
                PassError::UnrecognizedOutputExtension(_) => "Error opening vcf."@,
                PassError::RecordDecodeFailure => "Error reading Vcf file."@,
                PassError::RecordWriteFailure => "Error Writing Vcf file."@,
            },
    {
        match self {
            PassError::InputNotFound => "Error: No input file.",
            PassError::UnrecognizedOutputExtension(_) => "Error opening vcf.",
            PassError::RecordDecodeFailure => "Error reading Vcf file.",
            PassError::RecordWriteFailure => "Error Writing Vcf file.",
        }
    }
}

impl HaplotypeSlot {
    /// The digit that names the slot in a file name.
    pub open spec fn spec_suffix(self) -> Seq<char> {
        match self {
            HaplotypeSlot::Zero => seq!['0'],
            HaplotypeSlot::One => seq!['1'],
        }
    }

    /// The digit that names the slot in a file name.
    pub fn suffix(self) -> (digit: String)
        ensures
            digit@ == self.spec_suffix(),
    {
        proof {
            reveal_strlit("0");
            reveal_strlit("1");
        }
        match self {
            HaplotypeSlot::Zero => {
                assert("0"@ =~= seq!['0']);
                String::from_str("0")
            },
            HaplotypeSlot::One => {
                assert("1"@ =~= seq!['1']);
                String::from_str("1")
            },
        }
    }
}

/// Puts a file name together: the path without its extension, an
/// underscore, the suffix, the extension.
pub fn with_suffix(filepath: &str, suffix: &String, extension: &str) -> (name: String)
    ensures
        name@ == suffixed(filepath@, suffix@, extension@),
{
    proof {
        reveal_strlit("_");
    }
    assert("_"@ =~= seq!['_']);
    let mut name = String::from_str(filepath);
    name.append("_");
    name.append(suffix.as_str());
    name.append(extension);
    name
}

/// Whether `text` ends with `ending`.
fn has_ending(text: &str, ending: &str) -> (found: bool)
    ensures
        found == ends_with(text@, ending@),
{
    let length = text.unicode_len();
    let tail = ending.unicode_len();
    if length < tail {
        return false;
    }
    let offset = length - tail;
    let mut matched: usize = 0;
    while matched < tail
        invariant
            matched <= tail,
            length == text@.len(),
            tail == ending@.len(),
            offset + tail == length,
            forall|k: int| 0 <= k < matched ==> text@[offset + k] == ending@[k],
        decreases tail - matched,
    {
        if text.get_char(offset + matched) != ending.get_char(matched) {
            let ghost tail_of_text = text@.subrange(offset as int, length as int);
            assert(tail_of_text[matched as int] != ending@[matched as int]);
            return false;
        }
        matched = matched + 1;
    }
    assert(text@.subrange(offset as int, length as int) =~= ending@);
    true
}

/// Finds the format that an output path asks for.
fn format_of(path: &str) -> (format: Option<OutputFormat>)
    ensures
        format == recognized_format(path@),
{
    if has_ending(path, OutputFormat::CompressedVcf.extension()) {
        Some(OutputFormat::CompressedVcf)
    } else if has_ending(path, OutputFormat::Vcf.extension()) {
        Some(OutputFormat::Vcf)
    } else if has_ending(path, OutputFormat::Bcf.extension()) {
        Some(OutputFormat::Bcf)
    } else {
        None
    }
}

/// Names the file that one pass writes: the output path with an underscore
/// and the suffix set before its extension, in the format that the
/// extension stands for. A path with none of the supported extensions is
/// refused and handed back in the error.
pub fn gen_output_filename(output_file: &String, suffix: &String) -> (target: Result<
    OutputTarget,
    PassError,
>)
    ensures
        match recognized_format(output_file@) {
            Some(format) => target matches Ok(file) && file.format == format && file.path@
                == output_name(output_file@, suffix@, format),
            None => target matches Err(PassError::UnrecognizedOutputExtension(path)) && path@
                == output_file@,
        },
{
    let path = output_file.as_str();
    match format_of(path) {
        Some(format) => {
            let extension = format.extension();
            let length = path.unicode_len();
            let tail = extension.unicode_len();
            let stem = path.substring_char(0, length - tail);
            Ok(OutputTarget { path: with_suffix(stem, suffix, extension), format })
        },
        None => Err(PassError::UnrecognizedOutputExtension(output_file.clone())),
    }
}

} // verus!
