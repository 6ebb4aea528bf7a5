//! The library's error taxonomy: malformed input, I/O reported by the
//! caller, cross-worker communication faults, data-consistency faults
//! and empty-result conditions. Payloads are plain values; rendering a
//! message is the one service the type offers beyond matching.

use vstd::prelude::*;

use vstd::string::StringExecFns;

use crate::text::{dec_str, u64_to_string};

verus! {

#[derive(Debug, Clone, PartialEq, Eq)]
pub enum AppError {
    /// An I/O fault reported by the caller, with its context.
    IoError(String),
    /// The two read-file lists differ in length.
    NotEqualFileNumber { n1: usize, n2: usize },
    /// The two paired read files ended at different line counts.
    FastqFileLengthNotEqual { line1: u64, line2: u64 },
    /// A record stream fault other than I/O, with its context.
    FastqParseError(String),
    /// Paired records whose ids differ.
    FastqIdMismatch { line: u64, id1: String, id2: String },
    /// A record-store fault reported by the caller, with its context.
    BamRecordError(String),
    /// No tile ids were found where some were required.
    EmptyTileIDsList(String),
    /// A barcode pattern holding a symbol outside the IUPAC codes.
    InvalidBarcodePattern(String),
    /// A barcode that is not valid UTF-8.
    InvalidUtf8InBarcode,
    /// A cross-worker channel closed while still needed.
    ChannelError,
    /// The host system is none the pipeline knows how to drive.
    UnsupportedOS,
    /// A container image required by the caller is missing.
    DockerImageNotFound(String),
    /// A system command required by the caller is missing.
    CommandNotFound(String),
    /// A system command ran and failed.
    CommandError(String),
    /// A record id without the expected coordinate fields.
    InvalidRecordId,
    /// A byte outside the base alphabet where a base was required.
    InvalidBase(u8),
}

impl AppError {
    /// The message each error renders to.
    pub open spec fn spec_message(&self) -> Seq<char> {
        match self {
            AppError::IoError(s) => "IO operation error: "@ + s@,
            AppError::NotEqualFileNumber { n1, n2 } => "Mismatched number of input files: "@
                + dec_str(*n1 as nat) + " forward files, "@ + dec_str(*n2 as nat)
                + " reverse files"@,
            AppError::FastqFileLengthNotEqual { line1, line2 } => {
                "Inconsistent line counts in Fastq files: file1 at line "@ + dec_str(
                    *line1 as nat,
                ) + ", file2 at line "@ + dec_str(*line2 as nat)
            },
            AppError::FastqParseError(s) => "Fastq parsing error: "@ + s@,
            AppError::FastqIdMismatch { line, id1, id2 } => "Mismatched Fastq IDs at line "@
                + dec_str(*line as nat) + ": ID1="@ + id1@ + ", ID2="@ + id2@,
            AppError::BamRecordError(s) => "BAM record operation error: "@ + s@,
            AppError::EmptyTileIDsList(p) => "Empty tile IDs list: \""@ + p@ + "\""@,
            AppError::InvalidBarcodePattern(s) => "Invalid barcode pattern: "@ + s@,
            AppError::InvalidUtf8InBarcode => "Barcode contains invalid UTF-8 characters"@,
            AppError::ChannelError => "Thread channel communication failed"@,
            AppError::UnsupportedOS => "Unsupported operating system"@,
            AppError::DockerImageNotFound(s) => "Docker image not found: "@ + s@,
            AppError::CommandNotFound(s) => "System command not found: "@ + s@,
            AppError::CommandError(s) => "Command execution failed: "@ + s@,
            AppError::InvalidRecordId => "Invalid fastq id occurs!"@,
            AppError::InvalidBase(b) => "Invalid base: "@ + dec_str(*b as nat),
        }
    }

    /// Renders the error to its message text.
    pub fn message(&self) -> (r: String)
        ensures
            r@ == self.spec_message(),
    {
        match self {
            AppError::IoError(s) => String::from_str("IO operation error: ").concat(s.as_str()),
            AppError::NotEqualFileNumber { n1, n2 } => {
                String::from_str("Mismatched number of input files: ").concat(
                    u64_to_string(*n1 as u64).as_str(),
                ).concat(" forward files, ").concat(u64_to_string(*n2 as u64).as_str()).concat(
                    " reverse files",
                )
            },
            AppError::FastqFileLengthNotEqual { line1, line2 } => {
                String::from_str("Inconsistent line counts in Fastq files: file1 at line ").concat(
                    u64_to_string(*line1).as_str(),
                ).concat(", file2 at line ").concat(u64_to_string(*line2).as_str())
            },
            AppError::FastqParseError(s) => String::from_str("Fastq parsing error: ").concat(
                s.as_str(),
            ),
            AppError::FastqIdMismatch { line, id1, id2 } => {
                String::from_str("Mismatched Fastq IDs at line ").concat(
                    u64_to_string(*line).as_str(),
                ).concat(": ID1=").concat(id1.as_str()).concat(", ID2=").concat(id2.as_str())
            },
            AppError::BamRecordError(s) => String::from_str("BAM record operation error: ").concat(
                s.as_str(),
            ),
            AppError::EmptyTileIDsList(p) => String::from_str("Empty tile IDs list: \"").concat(
                p.as_str(),
            ).concat("\""),
            AppError::InvalidBarcodePattern(s) => String::from_str(
                "Invalid barcode pattern: ",
            ).concat(s.as_str()),
            AppError::InvalidUtf8InBarcode => String::from_str(
                "Barcode contains invalid UTF-8 characters",
            ),
            AppError::ChannelError => String::from_str("Thread channel communication failed"),
            AppError::UnsupportedOS => String::from_str("Unsupported operating system"),
            AppError::DockerImageNotFound(s) => String::from_str("Docker image not found: ").concat(
                s.as_str(),
            ),
            AppError::CommandNotFound(s) => String::from_str("System command not found: ").concat(
                s.as_str(),
            ),
            AppError::CommandError(s) => String::from_str("Command execution failed: ").concat(
                s.as_str(),
            ),
            AppError::InvalidRecordId => String::from_str("Invalid fastq id occurs!"),
            AppError::InvalidBase(b) => String::from_str("Invalid base: ").concat(
                u64_to_string(*b as u64).as_str(),
            ),
        }
    }
}

} // verus!
