//! The text reports of a container: its main header, its section header table,
//! the flag labels of a section, hexadecimal dumps and the type extension block.

use vstd::prelude::*;
use vstd::string::StringExecFns;
use crate::text::{dec_text, hex_byte, push_decimal, push_hex_byte};

verus! {

/// Flag bit: the section is compressed with zlib.
pub const FLAG_COMPRESS_ZLIB: u8 = 0x1;
/// Flag bit: the section is compressed with xz.
pub const FLAG_COMPRESS_XZ: u8 = 0x2;
/// Flag bit: the section carries a CRC32 checksum.
pub const FLAG_CHECK_CRC32: u8 = 0x4;
/// Flag bit: the section carries a weak checksum.
pub const FLAG_CHECK_WEAK: u8 = 0x8;

/// The fields of a container's main header that the reports show.
pub struct MainHeaderInfo {
    /// The container's type tag, one byte shown as a character.
    pub btype: u8,
    pub version: u32,
    pub file_size: u64,
    pub section_num: u32,
    /// The type extension block.
    pub type_ext: [u8; 16],
}

/// The fields of one section header that the reports show.
pub struct SectionInfo {
    /// The position of the section in the table.
    pub index: u32,
    pub btype: u8,
    /// The size of the section after compression.
    pub csize: u32,
    pub size: u32,
    pub flags: u8,
}

/// Appends the character `c`.
/// Relies on `String::push`, which appends one character.
#[verifier::external_body]
fn push_char(out: &mut String, c: char)
    ensures
        final(out)@ == old(out)@.push(c),
{
    out.push(c)
}

/// The main header report.
pub open spec fn main_header_text(h: MainHeaderInfo) -> Seq<char> {
    "====> BPX Main Header <====\n"@
        + "Type: "@ + seq![h.btype as char] + "\n"@
        + "Version: "@ + dec_text(h.version as nat) + "\n"@
        + "File size: "@ + dec_text(h.file_size as nat) + "\n"@
        + "Number of sections: "@ + dec_text(h.section_num as nat) + "\n"@
        + "====> End <====\n"@
        + "\n"@
}

/// Appends the main header report.
pub fn print_main_header(h: &MainHeaderInfo, out: &mut String)
    ensures
        final(out)@ == old(out)@ + main_header_text(*h),
{
    out.append("====> BPX Main Header <====\n");
    out.append("Type: ");
    push_char(out, h.btype as char);
    out.append("\n");
    out.append("Version: ");
    push_decimal(out, h.version as u64);
    out.append("\n");
    out.append("File size: ");
    push_decimal(out, h.file_size);
    out.append("\n");
    out.append("Number of sections: ");
    push_decimal(out, h.section_num as u64);
    out.append("\n");
    out.append("====> End <====\n");
    out.append("\n");
    assert(final(out)@ =~= old(out)@ + main_header_text(*h));
}

/// Whether all the bits of `flag` are set in `flags`.
pub open spec fn has_flag(flags: u8, flag: u8) -> bool {
    flags & flag == flag
}

/// The labels of a flag set, in their fixed order: the compression flags, the
/// checksum flags, and `CheckNone` where no checksum flag is set.
pub open spec fn flag_names(flags: u8) -> Seq<Seq<char>> {
    let a = if has_flag(flags, FLAG_COMPRESS_ZLIB) { seq!["CompressZlib"@] } else { seq![] };
    let b = if has_flag(flags, FLAG_COMPRESS_XZ) { seq!["CompressXZ"@] } else { seq![] };
    let c = if has_flag(flags, FLAG_CHECK_CRC32) { seq!["CheckCrc32"@] } else { seq![] };
    let d = if has_flag(flags, FLAG_CHECK_WEAK) { seq!["CheckWeak"@] } else { seq![] };
    let e = if !has_flag(flags, FLAG_CHECK_WEAK) && !has_flag(flags, FLAG_CHECK_CRC32) {
        seq!["CheckNone"@]
    } else {
        seq![]
    };
    a + b + c + d + e
}

/// Labels joined with `" | "`.
pub open spec fn join_labels(names: Seq<Seq<char>>) -> Seq<char>
    decreases names.len(),
{
    if names.len() == 0 {
        Seq::empty()
    } else if names.len() == 1 {
        names[0]
    } else {
        join_labels(names.drop_last()) + " | "@ + names.last()
    }
}

/// The label text of a flag set.
pub open spec fn flag_label(flags: u8) -> Seq<char> {
    join_labels(flag_names(flags))
}

/// Appends `name` to a label text that joins `names`.
fn push_label(out: &mut String, first: bool, Ghost(names): Ghost<Seq<Seq<char>>>, name: &str)
    requires
        old(out)@ == join_labels(names),
        first <==> names.len() == 0,
    ensures
        final(out)@ == join_labels(names.push(name@)),
{
    if !first {
        out.append(" | ");
        assert(names.push(name@).drop_last() =~= names);
    } else {
        assert(join_labels(names.push(name@)) == name@);
    }
    out.append(name);
}

/// The labels of the flag bits of a section, joined with `" | "`.
pub fn flags_label(flags: u8) -> (r: String)
    ensures
        r@ == flag_label(flags),
{
    let mut out = String::new();
    let mut first = true;
    let ghost names: Seq<Seq<char>> = seq![];
    assert(out@ =~= join_labels(names));
    if flags & FLAG_COMPRESS_ZLIB == FLAG_COMPRESS_ZLIB {
        push_label(&mut out, first, Ghost(names), "CompressZlib");
        first = false;
        proof { names = names.push("CompressZlib"@); }
    }
    if flags & FLAG_COMPRESS_XZ == FLAG_COMPRESS_XZ {
        push_label(&mut out, first, Ghost(names), "CompressXZ");
        first = false;
        proof { names = names.push("CompressXZ"@); }
    }
    if flags & FLAG_CHECK_CRC32 == FLAG_CHECK_CRC32 {
        push_label(&mut out, first, Ghost(names), "CheckCrc32");
        first = false;
        proof { names = names.push("CheckCrc32"@); }
    }
    if flags & FLAG_CHECK_WEAK == FLAG_CHECK_WEAK {
        push_label(&mut out, first, Ghost(names), "CheckWeak");
        first = false;
        proof { names = names.push("CheckWeak"@); }
    }
    if flags & FLAG_CHECK_WEAK != FLAG_CHECK_WEAK && flags & FLAG_CHECK_CRC32 != FLAG_CHECK_CRC32 {
        push_label(&mut out, first, Ghost(names), "CheckNone");
        first = false;
        proof { names = names.push("CheckNone"@); }
    }
    assert(names =~= flag_names(flags));
    out
}

/// The report of one section header.
pub open spec fn section_text(s: SectionInfo) -> Seq<char> {
    "Section #"@ + dec_text(s.index as nat) + ":\n"@
        + "\tType: "@ + dec_text(s.btype as nat) + "\n"@
        + "\tSize (after compression): "@ + dec_text(s.csize as nat) + "\n"@
        + "\tSize: "@ + dec_text(s.size as nat) + "\n"@
        + "\tFlags:  "@ + flag_label(s.flags) + "\n"@
}

/// The reports of the sections, in table order.
pub open spec fn sections_text(ss: Seq<SectionInfo>) -> Seq<char>
    decreases ss.len(),
{
    if ss.len() == 0 {
        Seq::empty()
    } else {
        sections_text(ss.drop_last()) + section_text(ss.last())
    }
}

/// The section header table report.
pub open spec fn sht_text(ss: Seq<SectionInfo>) -> Seq<char> {
    "====> BPX Section Header Table <====\n"@ + sections_text(ss) + "====> End <====\n"@ + "\n"@
}

/// Appends the report of one section header.
fn print_section_header(s: &SectionInfo, out: &mut String)
    ensures
        final(out)@ == old(out)@ + section_text(*s),
{
    out.append("Section #");
    push_decimal(out, s.index as u64);
    out.append(":\n");
    out.append("\tType: ");
    push_decimal(out, s.btype as u64);
    out.append("\n");
    out.append("\tSize (after compression): ");
    push_decimal(out, s.csize as u64);
    out.append("\n");
    out.append("\tSize: ");
    push_decimal(out, s.size as u64);
    out.append("\n");
    out.append("\tFlags:  ");
    let label = flags_label(s.flags);
    out.append(label.as_str());
    out.append("\n");
    assert(final(out)@ =~= old(out)@ + section_text(*s));
}

/// Appends the section header table report.
pub fn print_sht(sections: &Vec<SectionInfo>, out: &mut String)
    ensures
        final(out)@ == old(out)@ + sht_text(sections@),
{
    out.append("====> BPX Section Header Table <====\n");
    let ghost start = out@;
    let mut i: usize = 0;
    while i < sections.len()
        invariant
            i <= sections@.len(),
            out@ == start + sections_text(sections@.subrange(0, i as int)),
        decreases sections@.len() - i,
    {
        print_section_header(&sections[i], out);
        assert(sections@.subrange(0, i + 1).drop_last() =~= sections@.subrange(0, i as int));
        assert(out@ =~= start + sections_text(sections@.subrange(0, i + 1)));
        i = i + 1;
    }
    assert(sections@.subrange(0, i as int) =~= sections@);
    out.append("====> End <====\n");
    out.append("\n");
    assert(final(out)@ =~= old(out)@ + sht_text(sections@));
}

/// What stands before the byte at position `i` of a hex dump: a line break
/// before every sixteenth byte but the first.
pub open spec fn hex_sep(i: nat) -> Seq<char> {
    if i != 0 && i % 16 == 0 {
        "\n"@
    } else {
        Seq::empty()
    }
}

/// The hex dump of `bytes`, the first of which stands at position `start` of the
/// data: each byte as two upper-case hexadecimal digits and a space, sixteen
/// bytes to a line.
pub open spec fn hex_text(start: nat, bytes: Seq<u8>) -> Seq<char>
    decreases bytes.len(),
{
    if bytes.len() == 0 {
        Seq::empty()
    } else {
        hex_text(start, bytes.drop_last()) + hex_sep((start + bytes.len() - 1) as nat)
            + hex_byte(bytes.last()) + seq![' ']
    }
}

/// Appends the hex dump of `block`, whose first byte stands at position `start`
/// of the data: a stream dumped block by block reads as one dump.
pub fn hex_print_at(start: usize, block: &[u8], out: &mut String)
    requires
        start + block@.len() <= usize::MAX,
    ensures
        final(out)@ == old(out)@ + hex_text(start as nat, block@),
{
    let ghost begin = out@;
    let mut i: usize = 0;
    while i < block.len()
        invariant
            start + block@.len() <= usize::MAX,
            i <= block@.len(),
            out@ == begin + hex_text(start as nat, block@.subrange(0, i as int)),
        decreases block@.len() - i,
    {
        let pos: usize = start + i;
        if pos != 0 && pos % 16 == 0 {
            out.append("\n");
        }
        push_hex_byte(out, block[i]);
        proof {
            let next = block@.subrange(0, i + 1);
            assert(next.drop_last() =~= block@.subrange(0, i as int));
            assert(next.last() == block@[i as int]);
        }
        assert(out@ =~= begin + hex_text(start as nat, block@.subrange(0, i + 1)));
        i = i + 1;
    }
    assert(block@.subrange(0, i as int) =~= block@);
}

/// Appends the hex dump of `block`: each byte as two upper-case hexadecimal
/// digits and a space, with a line break before the 17th, 33rd, ... byte.
pub fn hex_print(block: &[u8], out: &mut String)
    ensures
        final(out)@ == old(out)@ + hex_text(0, block@),
{
    let n = block.len();
    assert(n == block@.len());
    hex_print_at(0, block, out);
}

/// The formatters of the type extension block, one per container type that has one.
pub enum TypeExtFormat {
    /// The package variant: target architecture, target platform and generator.
    Package,
}

/// The formatter registered for container type `btype`, if any.
pub fn get_type_ext_map(btype: u8) -> (r: Option<TypeExtFormat>)
    ensures
        r == (if btype == 0x50 { Some(TypeExtFormat::Package) } else { None::<TypeExtFormat> }),
{
    if btype == 0x50 {
        Some(TypeExtFormat::Package)
    } else {
        None
    }
}

/// The name of a package's architecture code.
pub open spec fn arch_name(code: u8) -> Seq<char> {
    if code == 0 {
        "X86_64"@
    } else if code == 1 {
        "Aarch64"@
    } else if code == 2 {
        "X86"@
    } else if code == 3 {
        "Armv7hl"@
    } else if code == 4 {
        "Any"@
    } else {
        "Unknown"@
    }
}

/// The name of a package's platform code.
pub open spec fn platform_name(code: u8) -> Seq<char> {
    if code == 0 {
        "Linux"@
    } else if code == 1 {
        "Mac"@
    } else if code == 2 {
        "Windows"@
    } else if code == 3 {
        "Android"@
    } else if code == 4 {
        "Any"@
    } else {
        "Unknown"@
    }
}

fn arch_str(code: u8) -> (r: &'static str)
    ensures
        r@ == arch_name(code),
{
    match code {
        0 => "X86_64",
        1 => "Aarch64",
        2 => "X86",
        3 => "Armv7hl",
        4 => "Any",
        _ => "Unknown",
    }
}

fn platform_str(code: u8) -> (r: &'static str)
    ensures
        r@ == platform_name(code),
{
    match code {
        0 => "Linux",
        1 => "Mac",
        2 => "Windows",
        3 => "Android",
        4 => "Any",
        _ => "Unknown",
    }
}

/// The text that a formatter gives for a type extension block.
pub open spec fn type_ext_text(f: TypeExtFormat, ext: Seq<u8>) -> Seq<char> {
    match f {
        TypeExtFormat::Package =>
            "Architecture: "@ + arch_name(ext[0]) + "\n"@
                + "Platform: "@ + platform_name(ext[1]) + "\n"@
                + "Generator: "@ + seq![ext[2] as char, ext[3] as char] + "\n"@,
    }
}

impl TypeExtFormat {
    /// Appends the text of the type extension block `ext`.
    pub fn render(&self, ext: &[u8; 16], out: &mut String)
        ensures
            final(out)@ == old(out)@ + type_ext_text(*self, ext@),
    {
        match self {
            TypeExtFormat::Package => {
                out.append("Architecture: ");
                out.append(arch_str(ext[0]));
                out.append("\n");
                out.append("Platform: ");
                out.append(platform_str(ext[1]));
                out.append("\n");
                out.append("Generator: ");
                push_char(out, ext[2] as char);
                push_char(out, ext[3] as char);
                out.append("\n");
            },
        }
        assert(final(out)@ =~= old(out)@ + type_ext_text(*self, ext@));
    }
}

/// The body of the type extension report: the registered formatter's text, or
/// a hex dump where `hex` is asked for or no formatter is registered.
pub open spec fn metadata_body(h: MainHeaderInfo, hex: bool) -> Seq<char> {
    if !hex && h.btype == 0x50 {
        type_ext_text(TypeExtFormat::Package, h.type_ext@)
    } else {
        hex_text(0, h.type_ext@) + "\n"@
    }
}

/// The type extension report.
pub open spec fn metadata_text(h: MainHeaderInfo, hex: bool) -> Seq<char> {
    "====> BPX TypeExt <====\n"@ + metadata_body(h, hex) + "====> End <====\n"@ + "\n"@
}

/// Appends the type extension report.
pub fn print_metadata(h: &MainHeaderInfo, hex: bool, out: &mut String)
    ensures
        final(out)@ == old(out)@ + metadata_text(*h, hex),
{
    out.append("====> BPX TypeExt <====\n");
    let format = if hex { None } else { get_type_ext_map(h.btype) };
    match format {
        Some(f) => f.render(&h.type_ext, out),
        None => {
            hex_print(&h.type_ext, out);
            out.append("\n");
        },
    }
    out.append("====> End <====\n");
    out.append("\n");
    assert(final(out)@ =~= old(out)@ + metadata_text(*h, hex));
}

/// The reports that come before a section dump: the main header, then the type
/// extension where `metadata` is asked for, then the section header table where
/// `sht` is asked for.
pub open spec fn report_text(h: MainHeaderInfo, sections: Seq<SectionInfo>, metadata: bool, sht: bool, hex: bool) -> Seq<char> {
    main_header_text(h) + (if metadata { metadata_text(h, hex) } else { Seq::empty() }) + (if sht {
        sht_text(sections)
    } else {
        Seq::empty()
    })
}

/// Appends the reports that come before a section dump.
pub fn print_report(
    h: &MainHeaderInfo,
    sections: &Vec<SectionInfo>,
    metadata: bool,
    sht: bool,
    hex: bool,
    out: &mut String,
)
    ensures
        final(out)@ == old(out)@ + report_text(*h, sections@, metadata, sht, hex),
{
    print_main_header(h, out);
    if metadata {
        print_metadata(h, hex, out);
    }
    if sht {
        print_sht(sections, out);
    }
    assert(final(out)@ =~= old(out)@ + report_text(*h, sections@, metadata, sht, hex));
}

/// Flag labels: both compression bits and no checksum bit give
/// `CompressZlib | CompressXZ | CheckNone`; no bit gives `CheckNone`; a checksum
/// bit leaves `CheckNone` out.
pub proof fn lemma_flag_labels(flags: u8)
    ensures
        has_flag(flags, FLAG_COMPRESS_ZLIB) && has_flag(flags, FLAG_COMPRESS_XZ) && !has_flag(
            flags,
            FLAG_CHECK_CRC32,
        ) && !has_flag(flags, FLAG_CHECK_WEAK) ==> flag_label(flags)
            == "CompressZlib | CompressXZ | CheckNone"@,
        flags == 0 ==> flag_label(flags) == "CheckNone"@,
        has_flag(flags, FLAG_CHECK_CRC32) || has_flag(flags, FLAG_CHECK_WEAK) ==> !flag_names(
            flags,
        ).contains("CheckNone"@),
{
    reveal_strlit("CompressZlib");
    reveal_strlit("CompressXZ");
    reveal_strlit("CheckCrc32");
    reveal_strlit("CheckWeak");
    reveal_strlit("CheckNone");
    reveal_strlit(" | ");
    reveal_strlit("CompressZlib | CompressXZ | CheckNone");
    if has_flag(flags, FLAG_COMPRESS_ZLIB) && has_flag(flags, FLAG_COMPRESS_XZ) && !has_flag(
        flags,
        FLAG_CHECK_CRC32,
    ) && !has_flag(flags, FLAG_CHECK_WEAK) {
        let names = flag_names(flags);
        assert(names =~= seq!["CompressZlib"@, "CompressXZ"@, "CheckNone"@]);
        assert(names.drop_last() =~= seq!["CompressZlib"@, "CompressXZ"@]);
        assert(names.drop_last().drop_last() =~= seq!["CompressZlib"@]);
        assert(join_labels(names.drop_last().drop_last()) == "CompressZlib"@);
        assert(join_labels(names.drop_last()) == "CompressZlib"@ + " | "@ + "CompressXZ"@);
        assert(join_labels(names) == "CompressZlib"@ + " | "@ + "CompressXZ"@ + " | "@ + "CheckNone"@);
        assert(flag_label(flags) =~= "CompressZlib | CompressXZ | CheckNone"@);
    }
    if flags == 0 {
        assert(flags & 1 == 0 && flags & 2 == 0 && flags & 4 == 0 && flags & 8 == 0) by (bit_vector)
            requires
                flags == 0,
        ;
        assert(flag_names(flags) =~= seq!["CheckNone"@]);
    }
    if has_flag(flags, FLAG_CHECK_CRC32) || has_flag(flags, FLAG_CHECK_WEAK) {
        let names = flag_names(flags);
        assert(forall|j: int| 0 <= j < names.len() ==> names[j][5] != 'N');
        assert("CheckNone"@[5] == 'N');
    }
}

/// The position of the text of byte `i` in a hex dump that starts at position 0:
/// three characters for each byte before it, and one line break for each run
/// of sixteen bytes before it.
pub open spec fn hex_pos(i: nat) -> nat {
    3 * i + i / 16
}

/// The length of the hex dump of `n` bytes.
pub open spec fn hex_len(n: nat) -> nat {
    if n == 0 { 0 } else { 3 * n + ((n - 1) / 16) as nat }
}

proof fn lemma_hex_prefix(b: Seq<u8>, n: nat)
    requires
        n <= b.len(),
    ensures
        hex_text(0, b.take(n as int)).len() == hex_len(n),
        n < b.len() ==> hex_text(0, b.take(n as int + 1)) == hex_text(0, b.take(n as int)) + hex_sep(n)
            + hex_byte(b[n as int]) + seq![' '],
    decreases n,
{
    reveal_strlit("\n");
    if n < b.len() {
        assert(b.take(n as int + 1).drop_last() =~= b.take(n as int));
    }
    if n > 0 {
        lemma_hex_prefix(b, (n - 1) as nat);
        let m = (n - 1) as nat;
        assert(hex_sep(m).len() == (if m != 0 && m % 16 == 0 { 1nat } else { 0nat }));
        if m == 0 {
            assert(hex_len(n) == 3);
        } else {
            assert(hex_len(n) == hex_len(m) + 3 + (if m % 16 == 0 { 1nat } else { 0nat })) by (nonlinear_arith)
                requires
                    m > 0,
                    n == m + 1,
                    hex_len(n) == 3 * n + (n - 1) / 16,
                    hex_len(m) == 3 * m + (m - 1) / 16,
            {
                assert((m - 1) / 16 + (if m % 16 == 0 { 1int } else { 0int }) == m / 16) by (nonlinear_arith)
                    requires m > 0;
            }
        }
    }
}

/// Where byte `i` stands in the dump of `b`.
proof fn lemma_hex_byte_at(b: Seq<u8>, i: int)
    requires
        0 <= i < b.len(),
    ensures
        ({
            let t = hex_text(0, b.take(i + 1));
            &&& t.len() == hex_pos(i as nat) + 3
            &&& t.is_prefix_of(hex_text(0, b))
            &&& hex_text(0, b)[hex_pos(i as nat) as int] == hex_byte(b[i])[0]
            &&& hex_text(0, b)[hex_pos(i as nat) as int + 1] == hex_byte(b[i])[1]
            &&& hex_text(0, b)[hex_pos(i as nat) as int + 2] == ' '
            &&& (i > 0 && i % 16 == 0 ==> hex_text(0, b)[hex_pos(i as nat) as int - 1] == '\n')
        }),
{
    reveal_strlit("\n");
    assert(b.take(b.len() as int) =~= b);
    lemma_hex_prefix(b, i as nat);
    lemma_hex_take_prefix(b, (i + 1) as nat, b.len());
    let t = hex_text(0, b.take(i + 1));
    let s = hex_text(0, b.take(i));
    let sep = hex_sep(i as nat);
    let tail = hex_byte(b[i]) + seq![' '];
    assert(t == s + sep + hex_byte(b[i]) + seq![' ']);
    assert(t =~= (s + sep) + tail);
    let k: int = if i != 0 && i % 16 == 0 { 1 } else { 0 };
    assert(sep.len() == k);
    assert(s.len() == hex_len(i as nat));
    if i > 0 {
        assert((i - 1) / 16 + k == i / 16) by (nonlinear_arith)
            requires
                i > 0,
                k == (if i % 16 == 0 { 1int } else { 0int }),
        ;
    }
    let p = hex_pos(i as nat) as int;
    assert(s.len() + sep.len() == p);
    let whole = hex_text(0, b);
    assert(whole[p] == t[p]);
    assert(whole[p + 1] == t[p + 1]);
    assert(whole[p + 2] == t[p + 2]);
    if i > 0 && i % 16 == 0 {
        assert(whole[p - 1] == t[p - 1]);
        assert(t[p - 1] == sep[0]);
    }
}

/// The layout of a hex dump of `n` bytes: the text of byte `i` stands at
/// `hex_pos(i)`, as two upper-case hexadecimal digits and a space; a line break
/// stands just before the 17th, 33rd, ... byte; nothing else stands in it. So the
/// dump of `n > 0` bytes has `(n - 1) / 16` line breaks: `ceil(n / 16)` lines.
pub proof fn lemma_hex_layout(b: Seq<u8>)
    ensures
        hex_text(0, b).len() == hex_len(b.len()),
        forall|i: int| 0 <= i < b.len() ==> {
            let t = #[trigger] hex_text(0, b.take(i + 1));
            &&& t.len() == hex_pos(i as nat) + 3
            &&& t.is_prefix_of(hex_text(0, b))
            &&& hex_text(0, b)[hex_pos(i as nat) as int] == hex_byte(b[i])[0]
            &&& hex_text(0, b)[hex_pos(i as nat) as int + 1] == hex_byte(b[i])[1]
            &&& hex_text(0, b)[hex_pos(i as nat) as int + 2] == ' '
            &&& (i > 0 && i % 16 == 0 ==> hex_text(0, b)[hex_pos(i as nat) as int - 1] == '\n')
        },
{
    assert(b.take(b.len() as int) =~= b);
    lemma_hex_prefix(b, b.len());
    assert forall|i: int| 0 <= i < b.len() implies {
        let t = #[trigger] hex_text(0, b.take(i + 1));
        &&& t.len() == hex_pos(i as nat) + 3
        &&& t.is_prefix_of(hex_text(0, b))
        &&& hex_text(0, b)[hex_pos(i as nat) as int] == hex_byte(b[i])[0]
        &&& hex_text(0, b)[hex_pos(i as nat) as int + 1] == hex_byte(b[i])[1]
        &&& hex_text(0, b)[hex_pos(i as nat) as int + 2] == ' '
        &&& (i > 0 && i % 16 == 0 ==> hex_text(0, b)[hex_pos(i as nat) as int - 1] == '\n')
    } by {
        lemma_hex_byte_at(b, i);
    }
}

/// The dump of a prefix of `b` is a prefix of the dump of `b`.
proof fn lemma_hex_take_prefix(b: Seq<u8>, m: nat, n: nat)
    requires
        m <= n <= b.len(),
    ensures
        hex_text(0, b.take(m as int)).is_prefix_of(hex_text(0, b.take(n as int))),
    decreases n - m,
{
    if m < n {
        lemma_hex_take_prefix(b, m, (n - 1) as nat);
        lemma_hex_prefix(b, (n - 1) as nat);
    }
}

/// Dumping a stream block by block gives the dump of the whole stream, when
/// each block is dumped from the position where it stands.
pub proof fn lemma_hex_blocks(start: nat, a: Seq<u8>, b: Seq<u8>)
    ensures
        hex_text(start, a + b) == hex_text(start, a) + hex_text(start + a.len(), b),
    decreases b.len(),
{
    if b.len() == 0 {
        assert(a + b =~= a);
    } else {
        lemma_hex_blocks(start, a, b.drop_last());
        assert((a + b).drop_last() =~= a + b.drop_last());
    }
}

} // verus!
