//! The decisions of a section dump: the output mode, the terminal policy for raw
//! bytes, and the section index given as text.

use vstd::prelude::*;
use vstd::string::StringExecFns;
use crate::error::{starts_with, DumpError};

verus! {

/// How a section's content is written out.
#[derive(PartialEq, Eq, Structural, Clone, Copy, Debug)]
pub enum PrintFormat {
    /// A hex dump.
    Hex,
    /// Parsed as a structured data object and pretty-printed.
    Sd,
    /// The bytes as they are.
    Raw,
}

/// The mode that the options select: structured data first, then hex, else raw.
pub fn choose_format(bpxsd: bool, hex: bool) -> (r: PrintFormat)
    ensures
        r == format_of(bpxsd, hex),
{
    if bpxsd {
        PrintFormat::Sd
    } else if hex {
        PrintFormat::Hex
    } else {
        PrintFormat::Raw
    }
}

/// Whether `c` is a decimal digit.
pub open spec fn is_digit(c: char) -> bool {
    '0' <= c && c <= '9'
}

/// The value of a string of decimal digits.
pub open spec fn digits_value(s: Seq<char>) -> nat
    decreases s.len(),
{
    if s.len() == 0 {
        0
    } else {
        digits_value(s.drop_last()) * 10 + ((s.last() as int) - ('0' as int)) as nat
    }
}

/// The digits of an unsigned integer's text: the text without its `+` sign, if it has one.
pub open spec fn unsigned_digits(s: Seq<char>) -> Seq<char> {
    if s.len() > 0 && s[0] == '+' {
        s.drop_first()
    } else {
        s
    }
}

/// Whether `s` is the text of a `u32`: an optional `+`, then one or more decimal
/// digits whose value fits.
pub open spec fn is_u32_text(s: Seq<char>) -> bool {
    let d = unsigned_digits(s);
    &&& d.len() > 0
    &&& forall|i: int| 0 <= i < d.len() ==> is_digit(#[trigger] d[i])
    &&& digits_value(d) <= u32::MAX
}

/// Parses a `u32` from its decimal text, or gives the parser's error message.
/// Relies on `<u32 as FromStr>::from_str`, which accepts an optional `+` followed
/// by decimal digits whose value fits in a `u32`, and nothing else.
#[verifier::external_body]
fn parse_u32(s: &str) -> (r: Result<u32, String>)
    ensures
        r is Ok <==> is_u32_text(s@),
        r matches Ok(v) ==> v as nat == digits_value(unsigned_digits(s@)),
{
    s.parse::<u32>().map_err(|e| e.to_string())
}

/// The mode that `choose_format` selects.
pub open spec fn format_of(bpxsd: bool, hex: bool) -> PrintFormat {
    if bpxsd {
        PrintFormat::Sd
    } else if hex {
        PrintFormat::Hex
    } else {
        PrintFormat::Raw
    }
}

/// Whether a dump is refused: raw bytes to standard output without `force`.
pub open spec fn refuses_raw(bpxsd: bool, hex: bool, force: bool, to_stdout: bool) -> bool {
    format_of(bpxsd, hex) == PrintFormat::Raw && to_stdout && !force
}

/// A section dump that may go ahead: which section, and in which mode.
#[derive(PartialEq, Eq, Structural, Clone, Copy, Debug)]
pub struct SectionDump {
    pub index: u32,
    pub format: PrintFormat,
}

/// Decides a section dump from the options: `section_id` is the section's index
/// as given, `to_stdout` whether the output goes to standard output rather than
/// to a file. A raw dump to standard output needs `force`; the index must be the
/// text of a `u32`.
pub fn plan_section_dump(
    section_id: &str,
    bpxsd: bool,
    hex: bool,
    force: bool,
    to_stdout: bool,
) -> (r: Result<SectionDump, DumpError>)
    ensures
        refuses_raw(bpxsd, hex, force, to_stdout) ==> r matches Err(DumpError::BinaryOutput),
        !refuses_raw(bpxsd, hex, force, to_stdout) && !is_u32_text(section_id@) ==> (r matches Err(
            DumpError::Parsing(msg),
        ) && starts_with(msg@, "Could not parse section index "@ + section_id@ + " ("@) && msg@.last()
            == ')'),
        !refuses_raw(bpxsd, hex, force, to_stdout) && is_u32_text(section_id@) ==> (r matches Ok(d)
            && d.format == format_of(bpxsd, hex) && d.index as nat == digits_value(
            unsigned_digits(section_id@),
        )),
{
    let format = choose_format(bpxsd, hex);
    if format == PrintFormat::Raw && to_stdout && !force {
        return Err(DumpError::BinaryOutput);
    }
    match parse_u32(section_id) {
        Ok(index) => Ok(SectionDump { index, format }),
        Err(reason) => {
            let mut msg = String::new();
            msg.append("Could not parse section index ");
            msg.append(section_id);
            msg.append(" (");
            msg.append(reason.as_str());
            msg.append(")");
            proof {
                reveal_strlit(")");
                let head = "Could not parse section index "@ + section_id@ + " ("@;
                assert(msg@ =~= head + (reason@ + ")"@));
                assert(msg@.subrange(0, head.len() as int) =~= head);
            }
            Err(DumpError::Parsing(msg))
        },
    }
}

} // verus!
