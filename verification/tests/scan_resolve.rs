use fflag_dump::binary::{Section, Sections};
use fflag_dump::dump::{calc_instruction_offset, decode_flag_value, read_cstyle_string, StringMap};
use fflag_dump::fastvar::{FastVarValue, FastVarValueType};
use fflag_dump::scanner::{scan, IDAPat};
use fflag_dump::stream::NetworkStream;
use fflag_dump::DumpError;

fn one_section(name: &[u8], data: Vec<u8>, va: usize, ptr: usize) -> Section {
    Section {
        name: name.to_vec(),
        virtual_address: va,
        pointer_to_raw_data: ptr,
        data,
    }
}

#[test]
fn scanner_finds_overlapping_literal_matches() {
    let sections = Sections {
        data: vec![one_section(b".text\0\0\0", vec![0xAA, 0xAA, 0xAA, 0x00, 0xAA, 0xAA], 0, 0)],
    };
    let pat = IDAPat::new("AA AA").unwrap();
    let found = scan(&sections, &pat, Some(".text"));
    // both overlapping occurrences at 0 and 1, plus the pair at 4
    assert_eq!(found, vec![0, 1, 4]);
}

#[test]
fn scanner_wildcards_match_every_window() {
    let sections = Sections {
        data: vec![one_section(b".text\0\0\0", vec![1, 2, 3, 4, 5], 0, 0)],
    };
    let pat = IDAPat::new("?? ??").unwrap();
    let found = scan(&sections, &pat, Some(".text"));
    assert_eq!(found, vec![0, 1, 2, 3]);
}

#[test]
fn scanner_mixed_literals_and_wildcards() {
    let sections = Sections {
        data: vec![one_section(b".text\0\0\0", vec![0x48, 0x8D, 0x15, 0x48, 0x99, 0x15], 0, 0)],
    };
    let pat = IDAPat::new("48 ?? 15").unwrap();
    let found = scan(&sections, &pat, Some(".text"));
    assert_eq!(found, vec![0, 3]);
}

#[test]
fn scanner_missing_section_finds_nothing() {
    let sections = Sections { data: vec![] };
    let pat = IDAPat::new("AA").unwrap();
    assert_eq!(scan(&sections, &pat, Some(".text")), Vec::<usize>::new());
}

#[test]
fn scan_all_sections_translates_offsets() {
    let sections = Sections {
        data: vec![
            one_section(b".text\0\0\0", vec![0xAA, 0x00], 0x1000, 512),
            one_section(b".data\0\0\0", vec![0x00, 0xAA], 0x2000, 1024),
        ],
    };
    let pat = IDAPat::new("AA").unwrap();
    let found = scan(&sections, &pat, None::<&str>);
    assert_eq!(found, vec![512, 1025]);
}

#[test]
fn malformed_pattern_is_rejected() {
    assert!(IDAPat::new("4").is_none());
    assert!(IDAPat::new("XY").is_none());
    assert!(IDAPat::new("41  B8").is_none());
    assert!(IDAPat::new("41 B8 ").unwrap().get_len() == 2);
    assert!(IDAPat::new("").unwrap().get_len() == 0);
    assert!(IDAPat::new("ab ?? FF").unwrap().get_len() == 3);
}

#[test]
fn resolver_computes_relative_target() {
    // displacement 0x10 at cursor start; after the 4-byte read the cursor is 4
    let mut s = NetworkStream::from(vec![0x10, 0, 0, 0]);
    // B + M + C + D - T = 0x1000 + 8 + 4 + 0x10 - 0x2000  (negative: wraps)
    let r = calc_instruction_offset(&mut s, 8, 0x1000, 0x2000).unwrap();
    let expected = (0x1000u64 + 8 + 4 + 0x10).wrapping_sub(0x2000) as usize;
    assert_eq!(r, expected);
    // sanity: the wrap really happened
    assert!(r > usize::MAX / 2);
}

#[test]
fn resolver_negative_displacement_wraps() {
    // displacement -4 as little-endian two's complement
    let mut s = NetworkStream::from(vec![0xFC, 0xFF, 0xFF, 0xFF]);
    let r = calc_instruction_offset(&mut s, 0, 0x1000, 0x1000).unwrap();
    // 0x1000 + 0 + 4 + (-4) - 0x1000 == 0
    assert_eq!(r, 0);
}

#[test]
fn resolver_short_stream_is_out_of_bounds() {
    let mut s = NetworkStream::from(vec![1, 2]);
    assert_eq!(calc_instruction_offset(&mut s, 0, 0, 0), Err(DumpError::OutOfBounds));
}

#[test]
fn cstyle_string_reads_until_nul() {
    let data = vec![b'H', b'i', 0, b'x'];
    assert_eq!(read_cstyle_string(&data, 0).unwrap(), "Hi");
    assert_eq!(read_cstyle_string(&data, 2).unwrap(), "");
    // no terminator before the end
    assert_eq!(read_cstyle_string(&data, 3), Err(DumpError::OutOfBounds));
}

#[test]
fn bounds_policy_numeric_out_of_section_is_uninit() {
    let data = vec![0u8; 6];
    let strings = StringMap::new();
    // slot address + width exceeds the section: Uninit, never an error
    let v = decode_flag_value(FastVarValueType::Int, &data, &strings, 3);
    assert!(matches!(v, FastVarValue::Uninit));
    let v = decode_flag_value(FastVarValueType::Log, &data, &strings, 5);
    assert!(matches!(v, FastVarValue::Uninit));
    let v = decode_flag_value(FastVarValueType::Flag, &data, &strings, 6);
    assert!(matches!(v, FastVarValue::Uninit));
}

#[test]
fn in_bounds_values_decode() {
    let data = vec![0x2A, 0x00, 0x00, 0x00, 0x07, 0x00, 0x01];
    let strings = StringMap::new();
    assert!(matches!(decode_flag_value(FastVarValueType::Int, &data, &strings, 0), FastVarValue::Int(42)));
    match decode_flag_value(FastVarValueType::Log, &data, &strings, 4) {
        FastVarValue::Log(s) => assert_eq!(s, "7"),
        _ => panic!("wrong variant"),
    }
    assert!(matches!(decode_flag_value(FastVarValueType::Flag, &data, &strings, 6), FastVarValue::Flag(true)));
    // string slots go through the string table
    let mut table = StringMap::new();
    table.insert(8, String::from("hello"));
    match decode_flag_value(FastVarValueType::String, &data, &table, 8) {
        FastVarValue::String(s) => assert_eq!(s, "hello"),
        _ => panic!("wrong variant"),
    }
    assert!(matches!(decode_flag_value(FastVarValueType::String, &data, &table, 9), FastVarValue::Uninit));
}

#[test]
fn section_names_are_nul_trimmed() {
    let sec = one_section(b".text\0\0\0", vec![], 0, 0);
    assert_eq!(sec.get_name(), ".text");
    let sections = Sections { data: vec![sec] };
    assert!(sections.get_section_by_name(".text").is_some());
    assert!(sections.get_section_by_name(".rdata").is_none());
}
