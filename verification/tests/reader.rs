use srcds::error::Error;
use srcds::reader::Reader;

#[test]
fn read_u8_takes_one_byte() {
    let data = [7u8, 9];
    let mut reader = Reader::new(&data);
    assert_eq!(reader.remaining(), 2);
    assert_eq!(reader.read_u8(), Ok(7));
    assert_eq!(reader.read_u8(), Ok(9));
    assert_eq!(reader.remaining(), 0);
    assert_eq!(reader.read_u8(), Err(Error::Truncated));
}

#[test]
fn read_i16_is_little_endian_and_signed() {
    let data = [0x02u8, 0x01, 0xFF, 0xFF, 0x00, 0x80];
    let mut reader = Reader::new(&data);
    assert_eq!(reader.read_i16(), Ok(258));
    assert_eq!(reader.read_i16(), Ok(-1));
    assert_eq!(reader.read_i16(), Ok(i16::MIN));
    assert_eq!(reader.read_i16(), Err(Error::Truncated));
}

#[test]
fn read_i16_needs_two_bytes() {
    let data = [0x02u8];
    let mut reader = Reader::new(&data);
    assert_eq!(reader.read_i16(), Err(Error::Truncated));
    assert_eq!(reader.remaining(), 1);
}

#[test]
fn read_i32_is_little_endian_and_signed() {
    let data = [0xD2u8, 0x04, 0x00, 0x00, 0xFE, 0xFF, 0xFF, 0xFF, 0x01, 0x02, 0x03];
    let mut reader = Reader::new(&data);
    assert_eq!(reader.read_i32(), Ok(1234));
    assert_eq!(reader.read_i32(), Ok(-2));
    assert_eq!(reader.read_i32(), Err(Error::Truncated));
    assert_eq!(reader.remaining(), 3);
}

#[test]
fn read_u32_is_little_endian() {
    let data = [0x00u8, 0x00, 0xC0, 0x3F, 0xFF, 0xFF, 0xFF, 0xFF];
    let mut reader = Reader::new(&data);
    assert_eq!(reader.read_u32(), Ok(0x3FC0_0000));
    assert_eq!(reader.read_u32(), Ok(u32::MAX));
    assert_eq!(reader.read_u32(), Err(Error::Truncated));
}

#[test]
fn read_u64_is_little_endian() {
    let data = [0x01u8, 0x02, 0x03, 0x04, 0x05, 0x06, 0x07, 0x08, 0x09];
    let mut reader = Reader::new(&data);
    assert_eq!(reader.read_u64(), Ok(0x0807_0605_0403_0201));
    assert_eq!(reader.read_u64(), Err(Error::Truncated));
    assert_eq!(reader.read_u8(), Ok(9));
}

#[test]
fn read_cstring_stops_at_the_zero_byte() {
    let data = [b'a', b'b', 0, b'c', 0, 0, b'd'];
    let mut reader = Reader::new(&data);
    assert_eq!(reader.read_cstring(), Ok("ab".to_string()));
    assert_eq!(reader.read_cstring(), Ok("c".to_string()));
    assert_eq!(reader.read_cstring(), Ok(String::new()));
    assert_eq!(reader.remaining(), 1);
}

#[test]
fn read_cstring_without_terminator_is_truncated() {
    let data = [b'a', b'b'];
    let mut reader = Reader::new(&data);
    assert_eq!(reader.read_cstring(), Err(Error::Truncated));
    assert_eq!(reader.remaining(), 2);
    let empty: [u8; 0] = [];
    let mut reader = Reader::new(&empty);
    assert_eq!(reader.read_cstring(), Err(Error::Truncated));
}

#[test]
fn read_cstring_decodes_utf8() {
    let data = [0xC3u8, 0xA9, 0xE2, 0x82, 0xAC, 0];
    let mut reader = Reader::new(&data);
    assert_eq!(reader.read_cstring(), Ok("\u{e9}\u{20ac}".to_string()));
    assert_eq!(reader.remaining(), 0);
}

#[test]
fn read_cstring_refuses_invalid_utf8() {
    let data = [b'a', 0xFF, b'b', 0, b'c', 0];
    let mut reader = Reader::new(&data);
    assert_eq!(reader.read_cstring(), Err(Error::InvalidEncoding));
    assert_eq!(reader.remaining(), 6);
    let cut = [0xE2u8, 0x82, 0];
    let mut reader = Reader::new(&cut);
    assert_eq!(reader.read_cstring(), Err(Error::InvalidEncoding));
}

#[test]
fn error_descriptions() {
    assert_eq!(Error::InvalidResponse.description(), "Invalid response");
    assert_eq!(Error::UnknownPacketHeader.description(), "Unknown packet header");
    assert_eq!(Error::FragmentMismatch.description(), "Subsequent packet IDs don't match");
    assert_eq!(Error::DuplicateFragment.description(), "Duplicate packet number");
    assert_eq!(Error::Truncated.description(), "Unexpected end of data");
    assert_eq!(Error::InvalidEncoding.description(), "Invalid text encoding");
    assert_eq!(Error::InvalidServerType.description(), "Invalid server type");
    assert_eq!(Error::InvalidEnvironment.description(), "Invalid environment");
    assert_eq!(Error::InvalidVisibility.description(), "Invalid visibility");
    assert_eq!(Error::InvalidVac.description(), "Invalid VAC");
}
