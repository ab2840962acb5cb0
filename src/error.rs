//! The errors of the dump tool, and the outside error types that they carry.

use vstd::prelude::*;
use vstd::string::StringExecFns;
use crate::text::{dec_text, push_decimal};

verus! {

/// The error type of the BPX library, carried as it is.
#[verifier::external_type_specification]
#[verifier::external_body]
pub struct ExBpxError(bpx::error::Error);

/// std's I/O error, carried as it is.
#[verifier::external_type_specification]
#[verifier::external_body]
pub struct ExIoError(std::io::Error);

/// Whether `prefix` starts `s`.
pub open spec fn starts_with(s: Seq<char>, prefix: Seq<char>) -> bool {
    prefix.len() <= s.len() && s.subrange(0, prefix.len() as int) == prefix
}

/// An error of the dump tool.
pub enum DumpError {
    /// The container could not be read.
    Bpx(bpx::error::Error),
    Io(std::io::Error),
    /// A structured data object could not be read.
    Sd(bpx::error::Error),
    /// A value given on the command line could not be parsed.
    Parsing(String),
    /// No section has the index that was asked for.
    SectionNotFound(u32),
    /// Raw binary data was to be written to the terminal without `--force`.
    BinaryOutput,
}

/// The message of a refused raw dump to the terminal.
pub open spec fn binary_output_message() -> Seq<char> {
    "Outputing binary data to standard output can mess-up your terminal, please use --force if you're sure to continue"@
}

impl DumpError {
    /// The one-line message that reports the error.
    pub fn message(&self) -> (r: String)
        ensures
            match self {
                DumpError::Bpx(_) => starts_with(r@, "BPX error: "@),
                DumpError::Io(_) => starts_with(r@, "IO error: "@),
                DumpError::Sd(_) => starts_with(r@, "BPXSD error: "@),
                DumpError::Parsing(s) => r@ == "Could not parse value ("@ + s@ + ")"@,
                DumpError::SectionNotFound(id) => r@ == "Could not find section with index "@ + dec_text(*id as nat),
                DumpError::BinaryOutput => r@ == binary_output_message(),
            },
    {
        let mut out = String::new();
        match self {
            DumpError::Bpx(e) => {
                out.append("BPX error: ");
                let text = e.to_string();
                out.append(text.as_str());
            },
            DumpError::Io(e) => {
                out.append("IO error: ");
                let text = e.to_string();
                out.append(text.as_str());
            },
            DumpError::Sd(e) => {
                out.append("BPXSD error: ");
                let text = e.to_string();
                out.append(text.as_str());
            },
            DumpError::Parsing(s) => {
                out.append("Could not parse value (");
                out.append(s.as_str());
                out.append(")");
            },
            DumpError::SectionNotFound(id) => {
                out.append("Could not find section with index ");
                push_decimal(&mut out, *id as u64);
            },
            DumpError::BinaryOutput => {
                out.append("Outputing binary data to standard output can mess-up your terminal, please use --force if you're sure to continue");
            },
        }
        assert(match self {
            DumpError::Bpx(_) => out@.subrange(0, "BPX error: "@.len() as int) =~= "BPX error: "@,
            DumpError::Io(_) => out@.subrange(0, "IO error: "@.len() as int) =~= "IO error: "@,
            DumpError::Sd(_) => out@.subrange(0, "BPXSD error: "@.len() as int) =~= "BPXSD error: "@,
            DumpError::Parsing(s) => out@ =~= "Could not parse value ("@ + s@ + ")"@,
            DumpError::SectionNotFound(id) => out@ =~= "Could not find section with index "@ + dec_text(*id as nat),
            DumpError::BinaryOutput => out@ =~= binary_output_message(),
        });
        out
    }
}

} // verus!
