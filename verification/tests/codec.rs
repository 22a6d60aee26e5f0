use fflag_dump::stream::NetworkStream;
use fflag_dump::DumpError;

#[test]
fn bytes_round_trip_le() {
    let mut s = NetworkStream::new();
    s.write_le::<u32>(0xDEADBEEF);
    s.write_le::<u16>(0x1234);
    s.write_le::<i32>(-7);
    assert_eq!(s.data, vec![0xEF, 0xBE, 0xAD, 0xDE, 0x34, 0x12, 0xF9, 0xFF, 0xFF, 0xFF]);
    let v: u32 = s.read_le().unwrap();
    assert_eq!(v, 0xDEADBEEF);
    let w: u16 = s.read_le().unwrap();
    assert_eq!(w, 0x1234);
    let x: i32 = s.read_le().unwrap();
    assert_eq!(x, -7);
}

#[test]
fn bytes_round_trip_be() {
    let mut s = NetworkStream::new();
    s.write_be::<u16>(0x4053);
    assert_eq!(s.data, vec![0x40, 0x53]);
    let v: u16 = s.read_be().unwrap();
    assert_eq!(v, 0x4053);
}

#[test]
fn read_past_end_is_out_of_bounds() {
    let mut s = NetworkStream::from(vec![1, 2]);
    let r: Result<u32, DumpError> = s.read_le();
    assert_eq!(r, Err(DumpError::OutOfBounds));
}

#[test]
fn bool_encoding() {
    let mut s = NetworkStream::new();
    s.write_bool(true);
    s.write_bool(false);
    s.write_byte(0x02);
    assert_eq!(s.data, vec![0x01, 0x00, 0x02]);
    assert_eq!(s.read_bool().unwrap(), true);
    assert_eq!(s.read_bool().unwrap(), false);
    // any byte other than 0x01 reads as false
    assert_eq!(s.read_bool().unwrap(), false);
}

#[test]
fn string_round_trip_u32_prefix() {
    let mut s = NetworkStream::new();
    s.write_string_le::<u32>("hello").unwrap();
    assert_eq!(s.data, vec![5, 0, 0, 0, b'h', b'e', b'l', b'l', b'o']);
    let got = s.read_string_le::<u32>().unwrap();
    assert_eq!(got, "hello");
}

#[test]
fn string_round_trip_u8_prefix_be() {
    let mut s = NetworkStream::new();
    s.write_string_be::<u16>("ab").unwrap();
    assert_eq!(s.data, vec![0, 2, b'a', b'b']);
    let got = s.read_string_be::<u16>().unwrap();
    assert_eq!(got, "ab");
}

#[test]
fn string_length_overflow() {
    let mut s = NetworkStream::new();
    let long = "x".repeat(300);
    let r = s.write_string_le::<u8>(&long);
    assert_eq!(r, Err(DumpError::LengthOverflow));
    // nothing was written
    assert_eq!(s.data.len(), 0);
}

#[test]
fn string_invalid_utf8_is_encoding_error() {
    let mut s = NetworkStream::from(vec![2, 0xFF, 0xFE]);
    let r = s.read_string_le::<u8>();
    assert_eq!(r.unwrap_err(), DumpError::Encoding);
}

#[test]
fn varint_round_values() {
    // 300 = 0b100101100 -> AC 02
    let mut s = NetworkStream::from(vec![0xAC, 0x02]);
    assert_eq!(s.read_varint32().unwrap(), 300);
    let mut t = NetworkStream::from(vec![0xAC, 0x02]);
    assert_eq!(t.read_varint64().unwrap(), 300);
    let mut u = NetworkStream::from(vec![0x7F]);
    assert_eq!(u.read_varint64().unwrap(), 127);
}

#[test]
fn signed_varint_zigzag() {
    // zig-zag: 1 -> -1, 2 -> 1, 3 -> -2
    let mut s = NetworkStream::from(vec![0x01]);
    assert_eq!(s.read_signedvarint32().unwrap(), -1);
    let mut t = NetworkStream::from(vec![0x02]);
    assert_eq!(t.read_signedvarint32().unwrap(), 1);
    let mut u = NetworkStream::from(vec![0x03]);
    assert_eq!(u.read_signedvarint64().unwrap(), -2);
}

#[test]
fn varint_overlong_is_format_error() {
    // six continuation bytes cannot fit a 32-bit varint
    let mut s = NetworkStream::from(vec![0x80, 0x80, 0x80, 0x80, 0x80, 0x01]);
    assert_eq!(s.read_varint32(), Err(DumpError::Format));
}

#[test]
fn network_strings() {
    let mut s = NetworkStream::from(vec![3, b'a', b'b', b'c']);
    assert_eq!(s.read_network_string32().unwrap(), "abc");
    let mut t = NetworkStream::from(vec![2, b'h', b'i']);
    assert_eq!(t.read_network_string64().unwrap(), "hi");
    let mut u = NetworkStream::from(vec![b'x', b'y', b'z']);
    assert_eq!(u.read_sized_string(2).unwrap(), "xy");
}

#[test]
fn ignore_and_read_to_end() {
    let mut s = NetworkStream::from(vec![1, 2, 3, 4]);
    s.ignore_bytes(2);
    assert_eq!(s.read_to_end(), vec![3, 4]);
    let b = s.read_bytes(2).unwrap();
    assert_eq!(b, vec![3, 4]);
    assert_eq!(s.read_byte(), Err(DumpError::OutOfBounds));
}

#[test]
fn write_bytes_appends() {
    let mut s = NetworkStream::from(vec![9]);
    s.write_bytes(&vec![8, 7]);
    assert_eq!(s.data, vec![9, 8, 7]);
}
