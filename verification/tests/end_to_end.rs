use fflag_dump::binary::get_sections_from_binary;
use fflag_dump::dump::get_fflags;
use fflag_dump::fastvar::{FastVarType, FastVarValue, FastVarValueType};

fn put_u16(image: &mut Vec<u8>, at: usize, v: u16) {
    image[at..at + 2].copy_from_slice(&v.to_le_bytes());
}

fn put_u32(image: &mut Vec<u8>, at: usize, v: u32) {
    image[at..at + 4].copy_from_slice(&v.to_le_bytes());
}

fn put(image: &mut Vec<u8>, at: usize, bytes: &[u8]) {
    image[at..at + bytes.len()].copy_from_slice(bytes);
}

fn section_header(image: &mut Vec<u8>, at: usize, name: &[u8; 8], vsize: u32, va: u32, raw: u32, ptr: u32) {
    put(image, at, name);
    put_u32(image, at + 8, vsize);
    put_u32(image, at + 12, va);
    put_u32(image, at + 16, raw);
    put_u32(image, at + 20, ptr);
}

/// A minimal 64-bit portable executable with a code, a read-only-data and a
/// writable-data section, holding one crafted flag-definition site and its
/// matching string-initializer site.
fn synthetic_image() -> Vec<u8> {
    let mut img = vec![0u8; 1552];
    // DOS header
    put(&mut img, 0, b"MZ");
    put_u32(&mut img, 0x3C, 64); // extended header offset
    // PE signature + file header
    put(&mut img, 64, b"PE\0\0");
    put_u16(&mut img, 68, 0x8664); // machine
    put_u16(&mut img, 70, 3); // sections
    put_u16(&mut img, 84, 112); // size of optional header
    put_u16(&mut img, 86, 0x2022); // characteristics
    // optional header: PE32+ magic, no data directories
    put_u16(&mut img, 88, 0x20B);
    put_u32(&mut img, 196, 0); // number of rva-and-sizes
    // section table
    section_header(&mut img, 200, b".text\0\0\0", 200, 0x1000, 200, 512);
    section_header(&mut img, 240, b".rdata\0\0", 32, 0x2000, 32, 1024);
    section_header(&mut img, 280, b".data\0\0\0", 16, 0x3000, 16, 1536);

    // .text at 512: flag-definition site at section offset 0
    let t = 512;
    put(&mut img, t, &[0x41, 0xB8]);
    put_u32(&mut img, t + 2, 0x01); // classification: Static
    put(&mut img, t + 6, &[0x48, 0x8D, 0x15]);
    put_u32(&mut img, t + 9, 8179); // slot displacement: resolves to .data offset 0
    put(&mut img, t + 13, &[0x48, 0x8D, 0x0D]);
    put_u32(&mut img, t + 16, 4076); // name displacement: resolves to .rdata offset 0
    img[t + 20] = 0xE9;
    put_u32(&mut img, t + 21, 39); // jump displacement: resolves to .text offset 64
    // jump target at 64: opcode probe 0x0000 selects the 15-byte stride
    put_u32(&mut img, t + 81, 75); // nested displacement: resolves to .text offset 160
    // tertiary site at 160: value-type tag 8 bytes in
    put_u32(&mut img, t + 168, 0x02); // String
    // string-initializer site at section offset 100
    put(&mut img, t + 100, &[0x48, 0x83, 0xEC]);
    img[t + 104] = 0xB9;
    img[t + 109] = 0xE8;
    put(&mut img, t + 114, &[0x0F, 0x10, 0x05]);
    put_u32(&mut img, t + 117, 3991); // string displacement: .rdata offset 16
    put(&mut img, t + 121, &[0x48, 0xC7, 0x05]);
    put_u32(&mut img, t + 124, 8076); // slot displacement: .data offset 0 (12-byte asymmetry)
    put_u32(&mut img, t + 128, 5); // string byte length

    // .rdata at 1024: flag name, then the string payload
    put(&mut img, 1024, b"TestFlag\0");
    put(&mut img, 1024 + 16, b"Hello");
    img
}

#[test]
fn loader_exposes_sections() {
    let sections = get_sections_from_binary(synthetic_image()).unwrap();
    assert_eq!(sections.data.len(), 3);
    assert_eq!(sections.data[0].get_name(), ".text");
    assert_eq!(sections.data[0].virtual_address, 0x1000);
    assert_eq!(sections.data[0].pointer_to_raw_data, 512);
    assert_eq!(sections.data[0].data.len(), 200);
    assert_eq!(sections.data[1].get_name(), ".rdata");
    assert_eq!(sections.data[2].get_name(), ".data");
    assert_eq!(&sections.data[1].data[0..8], b"TestFlag");
}

#[test]
fn loader_rejects_malformed_image() {
    assert!(get_sections_from_binary(vec![0u8; 10]).is_err());
    let mut bad = synthetic_image();
    bad[0] = b'X'; // break the DOS magic
    assert!(get_sections_from_binary(bad).is_err());
}

#[test]
fn end_to_end_extracts_the_crafted_flag() {
    let flags = get_fflags(synthetic_image()).unwrap();
    assert_eq!(flags.len(), 1);
    let flag = &flags[0];
    assert_eq!(flag.name, "TestFlag");
    assert_eq!(flag.var_type, FastVarType::Static);
    assert_eq!(flag.value_type, FastVarValueType::String);
    match &flag.value {
        FastVarValue::String(s) => assert_eq!(s, "Hello"),
        _ => panic!("wrong value variant"),
    }
}
