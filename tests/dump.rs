use bpx_tools::dump::{choose_format, plan_section_dump, PrintFormat, SectionDump};
use bpx_tools::error::DumpError;
use bpx_tools::report::{
    flags_label, get_type_ext_map, hex_print, hex_print_at, print_main_header, print_metadata,
    print_report, print_sht, MainHeaderInfo, SectionInfo, TypeExtFormat,
};

const EXPECTED_HEADER: &str = "====> BPX Main Header <====
Type: P
Version: 1
File size: 1632
Number of sections: 2
====> End <====

";

const EXPECTED_OUTPUT: &str = "====> BPX Main Header <====
Type: P
Version: 1
File size: 1632
Number of sections: 2
====> End <====

====> BPX TypeExt <====
Architecture: Any
Platform: Any
Generator: BD
====> End <====

====> BPX Section Header Table <====
Section #0:
	Type: 255
	Size (after compression): 15
	Size: 15
	Flags:  CheckWeak
Section #1:
	Type: 1
	Size (after compression): 1529
	Size: 1529
	Flags:  CheckWeak
====> End <====

";

const EXPECTED_OUTPUT_HEX: &str = "====> BPX Main Header <====
Type: P
Version: 1
File size: 1632
Number of sections: 2
====> End <====

====> BPX TypeExt <====
04 04 42 44 00 00 00 00 00 00 00 00 00 00 00 00 
====> End <====

====> BPX Section Header Table <====
Section #0:
	Type: 255
	Size (after compression): 15
	Size: 15
	Flags:  CheckWeak
Section #1:
	Type: 1
	Size (after compression): 1529
	Size: 1529
	Flags:  CheckWeak
====> End <====

";

const EXPECTED_SECTION_HEX: &str = "====> BPX Main Header <====
Type: P
Version: 1
File size: 1632
Number of sections: 2
====> End <====

4C 49 43 45 4E 53 45 5F 4C 46 2E 74 78 74 00 
";

const EXPECTED_ERROR_RAW: &str =
    "Outputing binary data to standard output can mess-up your terminal, please use --force if you're sure to continue";

fn test_header() -> MainHeaderInfo {
    let mut type_ext = [0u8; 16];
    type_ext[0] = 4;
    type_ext[1] = 4;
    type_ext[2] = b'B';
    type_ext[3] = b'D';
    MainHeaderInfo { btype: b'P', version: 1, file_size: 1632, section_num: 2, type_ext }
}

fn test_sections() -> Vec<SectionInfo> {
    vec![
        SectionInfo { index: 0, btype: 255, csize: 15, size: 15, flags: 8 },
        SectionInfo { index: 1, btype: 1, csize: 1529, size: 1529, flags: 8 },
    ]
}

/// The header, then metadata and the section table as the dump tool prints them.
fn report(metadata: bool, sht: bool, hex: bool) -> String {
    let mut out = String::new();
    print_report(&test_header(), &test_sections(), metadata, sht, hex, &mut out);
    out
}

/// The header, then section 0 dumped in the mode that the options select.
fn section_report(section_id: &str, bpxsd: bool, hex: bool, force: bool) -> (String, Result<(), String>) {
    let mut out = String::new();
    print_main_header(&test_header(), &mut out);
    match plan_section_dump(section_id, bpxsd, hex, force, true) {
        Ok(plan) => {
            assert_eq!(plan.index, 0);
            assert_eq!(plan.format, PrintFormat::Hex);
            hex_print(b"LICENSE_LF.txt\0", &mut out);
            out.push('\n');
            (out, Ok(()))
        },
        Err(e) => (out, Err(e.message())),
    }
}

#[test]
fn dump_header() {
    assert_eq!(report(false, false, false), EXPECTED_HEADER);
}

#[test]
fn error() {
    let e = DumpError::Io(std::io::Error::new(std::io::ErrorKind::NotFound, "No such file or directory"));
    let msg = e.message();
    assert!(msg.contains("IO error:"));
    assert_eq!(msg, "IO error: No such file or directory");
}

#[test]
fn dump_metadata_1() {
    assert_eq!(report(true, true, false), EXPECTED_OUTPUT);
}

#[test]
fn dump_metadata_2() {
    assert_eq!(report(true, true, false), EXPECTED_OUTPUT);
}

#[test]
fn dump_metadata_hex_1() {
    assert_eq!(report(true, true, true), EXPECTED_OUTPUT_HEX);
}

#[test]
fn dump_metadata_hex_2() {
    assert_eq!(report(true, true, true), EXPECTED_OUTPUT_HEX);
}

#[test]
fn dump_section_hex_1() {
    let (out, r) = section_report("0", false, true, false);
    assert!(r.is_ok());
    assert_eq!(out, EXPECTED_SECTION_HEX);
}

#[test]
fn dump_section_hex_2() {
    let (out, r) = section_report("0", false, true, false);
    assert!(r.is_ok());
    assert_eq!(out, EXPECTED_SECTION_HEX);
}

#[test]
fn dump_section_raw_1() {
    let (out, r) = section_report("0", false, false, false);
    assert_eq!(r, Err(String::from(EXPECTED_ERROR_RAW)));
    assert_eq!(out, EXPECTED_HEADER);
}

#[test]
fn dump_section_raw_2() {
    let (out, r) = section_report("0", false, false, false);
    assert_eq!(r, Err(String::from(EXPECTED_ERROR_RAW)));
    assert_eq!(out, EXPECTED_HEADER);
}

#[test]
fn raw_dump_with_force_or_to_file_goes_ahead() {
    assert_eq!(
        plan_section_dump("3", false, false, true, true).ok(),
        Some(SectionDump { index: 3, format: PrintFormat::Raw })
    );
    assert_eq!(
        plan_section_dump("3", false, false, false, false).ok(),
        Some(SectionDump { index: 3, format: PrintFormat::Raw })
    );
}

#[test]
fn section_index_parsing() {
    assert_eq!(plan_section_dump("+7", true, false, false, true).ok(), Some(SectionDump { index: 7, format: PrintFormat::Sd }));
    assert_eq!(plan_section_dump("4294967295", false, true, false, true).ok().map(|d| d.index), Some(4294967295));
    for bad in ["", "abc", "-1", "4294967296", "+", " 1"] {
        match plan_section_dump(bad, false, true, false, true) {
            Err(DumpError::Parsing(msg)) => {
                assert!(msg.starts_with(&format!("Could not parse section index {} (", bad)));
                assert!(msg.len() > format!("Could not parse section index {} ()", bad).len());
            },
            _ => panic!("{:?} should not parse", bad),
        }
    }
}

#[test]
fn parse_error_message() {
    let msg = DumpError::Parsing(String::from("x")).message();
    assert_eq!(msg, "Could not parse value (x)");
}

#[test]
fn section_not_found_message() {
    assert_eq!(DumpError::SectionNotFound(42).message(), "Could not find section with index 42");
}

#[test]
fn bpx_error_messages() {
    let e = DumpError::Bpx(bpx::error::Error::MissingProp("x"));
    assert_eq!(e.message(), "BPX error: BPXSD - missing property x");
    let e = DumpError::Sd(bpx::error::Error::Truncation("obj"));
    assert_eq!(e.message(), "BPXSD error: unexpected EOF while reading obj, are you sure the data is not truncated?");
}

#[test]
fn format_selection() {
    assert_eq!(choose_format(true, true), PrintFormat::Sd);
    assert_eq!(choose_format(false, true), PrintFormat::Hex);
    assert_eq!(choose_format(false, false), PrintFormat::Raw);
}

#[test]
fn flag_labels() {
    assert_eq!(flags_label(1 | 2), "CompressZlib | CompressXZ | CheckNone");
    assert_eq!(flags_label(0), "CheckNone");
    assert_eq!(flags_label(4), "CheckCrc32");
    assert_eq!(flags_label(8), "CheckWeak");
    assert_eq!(flags_label(1 | 4 | 8), "CompressZlib | CheckCrc32 | CheckWeak");
    assert_eq!(flags_label(2 | 8), "CompressXZ | CheckWeak");
    assert!(!flags_label(0xFF).contains("CheckNone"));
}

#[test]
fn hex_dump_lines() {
    let mut out = String::new();
    hex_print(&[], &mut out);
    assert_eq!(out, "");
    let bytes: Vec<u8> = (0u8..33).collect();
    let mut out = String::new();
    hex_print(&bytes, &mut out);
    let lines: Vec<&str> = out.split('\n').collect();
    assert_eq!(lines.len(), 3);
    assert_eq!(lines[0], "00 01 02 03 04 05 06 07 08 09 0A 0B 0C 0D 0E 0F ");
    assert_eq!(lines[1], "10 11 12 13 14 15 16 17 18 19 1A 1B 1C 1D 1E 1F ");
    assert_eq!(lines[2], "20 ");
    let mut out = String::new();
    hex_print(&[0xAB; 16], &mut out);
    assert_eq!(out.split('\n').count(), 1);
    assert_eq!(out.len(), 48);
}

#[test]
fn hex_dump_in_blocks() {
    let bytes: Vec<u8> = (0u8..40).collect();
    let mut whole = String::new();
    hex_print(&bytes, &mut whole);
    let mut parts = String::new();
    hex_print_at(0, &bytes[..10], &mut parts);
    hex_print_at(10, &bytes[10..25], &mut parts);
    hex_print_at(25, &bytes[25..], &mut parts);
    assert_eq!(parts, whole);
}

#[test]
fn type_ext_registry() {
    assert!(matches!(get_type_ext_map(b'P'), Some(TypeExtFormat::Package)));
    assert!(get_type_ext_map(b'X').is_none());
    let mut h = test_header();
    h.btype = b'X';
    let mut out = String::new();
    print_metadata(&h, false, &mut out);
    assert_eq!(out, "====> BPX TypeExt <====\n04 04 42 44 00 00 00 00 00 00 00 00 00 00 00 00 \n====> End <====\n\n");
    let mut ext = [0u8; 16];
    ext[0] = 1;
    ext[1] = 2;
    ext[2] = b'X';
    ext[3] = b'Y';
    let mut out = String::new();
    TypeExtFormat::Package.render(&ext, &mut out);
    assert_eq!(out, "Architecture: Aarch64\nPlatform: Windows\nGenerator: XY\n");
}

#[test]
fn report_parts() {
    let h = test_header();
    let mut out = String::new();
    print_sht(&test_sections(), &mut out);
    assert_eq!(report(false, true, false), format!("{}{}", EXPECTED_HEADER, out));
    let mut out = String::new();
    print_metadata(&h, true, &mut out);
    assert_eq!(report(true, false, true), format!("{}{}", EXPECTED_HEADER, out));
    let mut empty = String::new();
    print_sht(&vec![], &mut empty);
    assert_eq!(empty, "====> BPX Section Header Table <====\n====> End <====\n\n");
}
