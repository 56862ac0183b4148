use endio::bytes::encode_uint;
use endio::schema::{read_number, write_number};
use endio::{
    BERead, BEWrite, BigEndian, ByteOrder, Endianness, Error, ErrorKind, IntType, LERead, LEWrite, LittleEndian,
    Number, Reader, Writer,
};

const INTEGER: u128 = 0xbaadf00dbaadf00dbaadf00dbaadf00d;
const BYTES: &[u8; 16] = b"\x0d\xf0\xad\xba\x0d\xf0\xad\xba\x0d\xf0\xad\xba\x0d\xf0\xad\xba";

#[test]
fn byte_orders_are_the_two() {
    assert_eq!(BigEndian::order(), ByteOrder::Big);
    assert_eq!(LittleEndian::order(), ByteOrder::Little);
}

#[test]
fn read_u16_in_both_orders() {
    let mut reader = Reader::new(&BYTES[..]);
    let val: u16 = BERead::read(&mut reader).unwrap();
    assert_eq!(val, (INTEGER as u16).to_be());
    let mut reader = Reader::new(&BYTES[..]);
    let val: u16 = LERead::read(&mut reader).unwrap();
    assert_eq!(val, (INTEGER as u16).to_le());
    assert_eq!(val, 0xf00d);
}

#[test]
fn read_u32_in_both_orders() {
    let mut reader = Reader::new(&BYTES[..]);
    let val: u32 = BERead::read(&mut reader).unwrap();
    assert_eq!(val, (INTEGER as u32).to_be());
    let mut reader = Reader::new(&BYTES[..]);
    let val: u32 = LERead::read(&mut reader).unwrap();
    assert_eq!(val, (INTEGER as u32).to_le());
    assert_eq!(val, 0xbaadf00d);
}

#[test]
fn read_u64_in_both_orders() {
    let mut reader = Reader::new(&BYTES[..]);
    let val: u64 = BERead::read(&mut reader).unwrap();
    assert_eq!(val, (INTEGER as u64).to_be());
    let mut reader = Reader::new(&BYTES[..]);
    let val: u64 = LERead::read(&mut reader).unwrap();
    assert_eq!(val, (INTEGER as u64).to_le());
}

#[test]
fn read_u128_in_both_orders() {
    let mut reader = Reader::new(&BYTES[..]);
    let val: u128 = BERead::read(&mut reader).unwrap();
    assert_eq!(val, INTEGER.to_be());
    let mut reader = Reader::new(&BYTES[..]);
    let val: u128 = LERead::read(&mut reader).unwrap();
    assert_eq!(val, INTEGER.to_le());
    assert_eq!(reader.remaining(), 0);
}

#[test]
fn read_i16_in_both_orders() {
    let mut reader = Reader::new(&BYTES[..]);
    let val: i16 = BERead::read(&mut reader).unwrap();
    assert_eq!(val, (INTEGER as i16).to_be());
    let mut reader = Reader::new(&BYTES[..]);
    let val: i16 = LERead::read(&mut reader).unwrap();
    assert_eq!(val, (INTEGER as i16).to_le());
    assert_eq!(val, -4083);
}

#[test]
fn read_i32_in_both_orders() {
    let mut reader = Reader::new(&BYTES[..]);
    let val: i32 = BERead::read(&mut reader).unwrap();
    assert_eq!(val, (INTEGER as i32).to_be());
    let mut reader = Reader::new(&BYTES[..]);
    let val: i32 = LERead::read(&mut reader).unwrap();
    assert_eq!(val, (INTEGER as i32).to_le());
}

#[test]
fn read_i64_in_both_orders() {
    let mut reader = Reader::new(&BYTES[..]);
    let val: i64 = BERead::read(&mut reader).unwrap();
    assert_eq!(val, (INTEGER as i64).to_be());
    let mut reader = Reader::new(&BYTES[..]);
    let val: i64 = LERead::read(&mut reader).unwrap();
    assert_eq!(val, (INTEGER as i64).to_le());
}

#[test]
fn read_i128_in_both_orders() {
    let mut reader = Reader::new(&BYTES[..]);
    let val: i128 = BERead::read(&mut reader).unwrap();
    assert_eq!(val, (INTEGER as i128).to_be());
    let mut reader = Reader::new(&BYTES[..]);
    let val: i128 = LERead::read(&mut reader).unwrap();
    assert_eq!(val, (INTEGER as i128).to_le());
    let mut reader = Reader::new(&[0xffu8; 16][..]);
    let val: i128 = LERead::read(&mut reader).unwrap();
    assert_eq!(val, -1);
    let mut reader = Reader::new(b"\x80\x00\x00\x00\x00\x00\x00\x00\x00\x00\x00\x00\x00\x00\x00\x00");
    let val: i128 = BERead::read(&mut reader).unwrap();
    assert_eq!(val, i128::MIN);
}

#[test]
fn write_u16_in_both_orders() {
    let mut writer = Writer::new();
    BEWrite::write(&mut writer, (INTEGER as u16).to_be()).unwrap();
    assert_eq!(writer.bytes(), &BYTES[..2]);
    let mut writer = Writer::new();
    LEWrite::write(&mut writer, (INTEGER as u16).to_le()).unwrap();
    assert_eq!(writer.bytes(), &BYTES[..2]);
}

#[test]
fn write_u32_in_both_orders() {
    let mut writer = Writer::new();
    BEWrite::write(&mut writer, (INTEGER as u32).to_be()).unwrap();
    assert_eq!(writer.bytes(), &BYTES[..4]);
    let mut writer = Writer::new();
    LEWrite::write(&mut writer, (INTEGER as u32).to_le()).unwrap();
    assert_eq!(writer.bytes(), &BYTES[..4]);
}

#[test]
fn write_u64_in_both_orders() {
    let mut writer = Writer::new();
    BEWrite::write(&mut writer, (INTEGER as u64).to_be()).unwrap();
    assert_eq!(writer.bytes(), &BYTES[..8]);
    let mut writer = Writer::new();
    LEWrite::write(&mut writer, (INTEGER as u64).to_le()).unwrap();
    assert_eq!(writer.bytes(), &BYTES[..8]);
}

#[test]
fn write_u128_in_both_orders() {
    let mut writer = Writer::new();
    BEWrite::write(&mut writer, INTEGER.to_be()).unwrap();
    assert_eq!(writer.bytes(), &BYTES[..]);
    let mut writer = Writer::new();
    LEWrite::write(&mut writer, INTEGER.to_le()).unwrap();
    assert_eq!(writer.bytes(), &BYTES[..]);
}

#[test]
fn write_signed_in_both_orders() {
    let mut writer = Writer::new();
    BEWrite::write(&mut writer, (INTEGER as i16).to_be()).unwrap();
    BEWrite::write(&mut writer, (INTEGER as i32).to_be()).unwrap();
    BEWrite::write(&mut writer, (INTEGER as i64).to_be()).unwrap();
    BEWrite::write(&mut writer, (INTEGER as i128).to_be()).unwrap();
    let mut expected = Vec::new();
    expected.extend_from_slice(&BYTES[..2]);
    expected.extend_from_slice(&BYTES[..4]);
    expected.extend_from_slice(&BYTES[..8]);
    expected.extend_from_slice(&BYTES[..]);
    assert_eq!(writer.bytes(), &expected[..]);
    let mut writer = Writer::new();
    LEWrite::write(&mut writer, (INTEGER as i16).to_le()).unwrap();
    LEWrite::write(&mut writer, (INTEGER as i32).to_le()).unwrap();
    LEWrite::write(&mut writer, (INTEGER as i64).to_le()).unwrap();
    LEWrite::write(&mut writer, (INTEGER as i128).to_le()).unwrap();
    assert_eq!(writer.bytes(), &expected[..]);
    let mut writer = Writer::new();
    BEWrite::write(&mut writer, -2i16).unwrap();
    LEWrite::write(&mut writer, -2i32).unwrap();
    BEWrite::write(&mut writer, i64::MIN).unwrap();
    assert_eq!(writer.bytes(), b"\xff\xfe\xfe\xff\xff\xff\x80\x00\x00\x00\x00\x00\x00\x00");
}

#[test]
fn references_are_written_as_their_values() {
    let mut writer = Writer::new();
    LEWrite::write(&mut writer, &0x0102u16).unwrap();
    BEWrite::write(&mut writer, &0x0102u16).unwrap();
    BEWrite::write(&mut writer, &true).unwrap();
    BEWrite::write(&mut writer, &-1i8).unwrap();
    BEWrite::write(&mut writer, &[1u8, 2, 3, 4]).unwrap();
    LEWrite::write(&mut writer, &vec![true, false][..]).unwrap();
    LEWrite::write(&mut writer, &Vec::<u64>::new()).unwrap();
    assert_eq!(writer.bytes(), b"\x02\x01\x01\x02\x01\xff\x01\x02\x03\x04\x01\x00");
}

#[test]
fn encode_uint_keeps_the_low_digits() {
    assert_eq!(encode_uint(0x010203, 2, ByteOrder::Big), b"\x02\x03");
    assert_eq!(encode_uint(0x010203, 2, ByteOrder::Little), b"\x03\x02");
    assert_eq!(encode_uint(0x010203, 4, ByteOrder::Big), b"\x00\x01\x02\x03");
    assert_eq!(encode_uint(0x010203, 0, ByteOrder::Big), b"");
    assert_eq!(encode_uint(u128::MAX, 17, ByteOrder::Little)[16], 0);
}

#[test]
fn symmetric_numbers_read_the_same_in_both_orders() {
    let mut big = Writer::new();
    let mut little = Writer::new();
    BEWrite::write(&mut big, 0x0101u16).unwrap();
    LEWrite::write(&mut little, 0x0101u16).unwrap();
    assert_eq!(big.bytes(), little.bytes());
    BEWrite::write(&mut big, 0x0102u16).unwrap();
    LEWrite::write(&mut little, 0x0102u16).unwrap();
    assert_ne!(big.bytes(), little.bytes());
}

#[test]
fn short_reads_are_refused() {
    let mut reader = Reader::new(b"\x01");
    assert_eq!(BERead::read::<u16>(&mut reader), Err(Error::ShortRead));
    assert_eq!(reader.remaining(), 1);
    assert_eq!(Error::ShortRead.kind(), ErrorKind::UnexpectedEof);
    let mut reader = Reader::new(b"");
    assert_eq!(BERead::read::<bool>(&mut reader), Err(Error::ShortRead));
    assert_eq!(LERead::read::<u8>(&mut reader), Err(Error::ShortRead));
    assert_eq!(LERead::read::<i128>(&mut reader), Err(Error::ShortRead));
    assert_eq!(LERead::read::<[u8; 4]>(&mut reader), Err(Error::ShortRead));
    assert_eq!(LERead::read::<Option<u8>>(&mut reader), Err(Error::ShortRead));
    let mut reader = Reader::new(b"\x01");
    assert_eq!(LERead::read::<Option<u8>>(&mut reader), Err(Error::ShortRead));
    let mut reader = Reader::new(b"\x02\x01");
    assert_eq!(LERead::read::<Option<u8>>(&mut reader), Err(Error::InvalidBooleanByte(2)));
    let mut reader = Reader::new(b"\x01\x01\x07");
    assert_eq!(LERead::read::<Option<Option<u8>>>(&mut reader), Ok(Some(Some(7))));
}

#[test]
fn reader_takes_and_skips() {
    let mut reader = Reader::new(b"\x01\x02\x03\x04\x05");
    assert_eq!(reader.remaining(), 5);
    assert_eq!(reader.take(2), Ok(&b"\x01\x02"[..]));
    assert_eq!(reader.skip(0), Ok(()));
    assert_eq!(reader.skip(2), Ok(()));
    assert_eq!(reader.take(2), Err(Error::ShortRead));
    assert_eq!(reader.skip(2), Err(Error::ShortRead));
    assert_eq!(reader.take(1), Ok(&b"\x05"[..]));
    assert_eq!(reader.take(0), Ok(&b""[..]));
    assert_eq!(reader.remaining(), 0);
}

#[test]
fn short_writes_are_refused() {
    let mut writer = Writer::with_limit(3);
    assert_eq!(writer.room(), 3);
    assert_eq!(BEWrite::write(&mut writer, 0x0102u16), Ok(()));
    assert_eq!(BEWrite::write(&mut writer, 0x0304u16), Err(Error::ShortWrite));
    assert_eq!(writer.bytes(), b"\x01\x02");
    assert_eq!(writer.write_zeros(2), Err(Error::ShortWrite));
    assert_eq!(writer.write_zeros(1), Ok(()));
    assert_eq!(writer.write_all(b""), Ok(()));
    assert_eq!(writer.write_all(b"\x01"), Err(Error::ShortWrite));
    assert_eq!(writer.room(), 0);
    assert_eq!(writer.into_bytes(), b"\x01\x02\x00");
    assert_eq!(Error::ShortWrite.kind(), ErrorKind::WriteZero);
    let mut writer = Writer::with_limit(3);
    assert_eq!(LEWrite::write(&mut writer, &[1u16, 2u16][..]), Err(Error::ShortWrite));
    assert_eq!(writer.bytes(), b"\x01\x00");
}

#[test]
fn numbers_are_held_to_their_types() {
    assert!(IntType::U8.check(Number::Unsigned(255)));
    assert!(!IntType::U8.check(Number::Unsigned(256)));
    assert!(!IntType::U8.check(Number::Signed(1)));
    assert!(IntType::I8.check(Number::Signed(-128)));
    assert!(IntType::I8.check(Number::Signed(127)));
    assert!(!IntType::I8.check(Number::Signed(-129)));
    assert!(!IntType::I8.check(Number::Signed(128)));
    assert!(!IntType::I8.check(Number::Unsigned(1)));
    assert!(IntType::U128.check(Number::Unsigned(u128::MAX)));
    assert!(IntType::I128.check(Number::Signed(i128::MIN)));
    assert!(IntType::I128.check(Number::Signed(i128::MAX)));
    assert!(IntType::U64.check(Number::Unsigned(u64::MAX as u128)));
    assert!(!IntType::U64.check(Number::Unsigned(u64::MAX as u128 + 1)));
    assert!(IntType::I64.check(Number::Signed(i64::MIN as i128)));
    assert!(!IntType::I64.check(Number::Signed(i64::MIN as i128 - 1)));
    assert_eq!(IntType::U16.width(), 2);
    assert_eq!(IntType::I128.width(), 16);
    assert!(IntType::I32.signed());
    assert!(!IntType::U32.signed());
    assert_eq!(IntType::from_name("u8"), Some(IntType::U8));
    assert_eq!(IntType::from_name("i64"), Some(IntType::I64));
    assert_eq!(IntType::from_name("u128"), Some(IntType::U128));
    assert_eq!(IntType::from_name("usize"), None);
    assert_eq!(IntType::from_name("U8"), None);
    assert_eq!(IntType::from_name(""), None);
}

#[test]
fn numbers_travel_in_their_types() {
    let mut writer = Writer::new();
    assert_eq!(write_number(Number::Unsigned(0x0102), IntType::U16, &mut writer, ByteOrder::Big), Ok(()));
    assert_eq!(write_number(Number::Signed(-2), IntType::I32, &mut writer, ByteOrder::Little), Ok(()));
    assert_eq!(
        write_number(Number::Signed(-2), IntType::U32, &mut writer, ByteOrder::Little),
        Err(Error::InvalidInstance)
    );
    assert_eq!(
        write_number(Number::Unsigned(0x10000), IntType::U16, &mut writer, ByteOrder::Little),
        Err(Error::InvalidInstance)
    );
    assert_eq!(writer.bytes(), b"\x01\x02\xfe\xff\xff\xff");
    let mut reader = Reader::new(writer.bytes());
    assert_eq!(read_number(&mut reader, IntType::U16, ByteOrder::Big), Ok(Number::Unsigned(0x0102)));
    assert_eq!(read_number(&mut reader, IntType::I32, ByteOrder::Little), Ok(Number::Signed(-2)));
    assert_eq!(read_number(&mut reader, IntType::I8, ByteOrder::Little), Err(Error::ShortRead));
    assert_eq!(Error::InvalidInstance.kind(), ErrorKind::InvalidInput);
    assert_eq!(Error::UnknownType.kind(), ErrorKind::InvalidInput);
    assert_eq!(
        Error::InvalidDiscriminant { name: String::new(), value: Number::Signed(0) }.kind(),
        ErrorKind::InvalidData
    );
}

#[test]
fn optional_values_are_written_behind_their_flag() {
    let mut writer = Writer::new();
    LEWrite::write(&mut writer, Some(0x002au16)).unwrap();
    LEWrite::write(&mut writer, None::<u16>).unwrap();
    BEWrite::write(&mut writer, Some(Some(true))).unwrap();
    assert_eq!(writer.bytes(), b"\x01\x2a\x00\x00\x01\x01\x01");
    let mut reader = Reader::new(writer.bytes());
    assert_eq!(LERead::read::<Option<u16>>(&mut reader), Ok(Some(0x002a)));
    assert_eq!(LERead::read::<Option<u16>>(&mut reader), Ok(None));
    assert_eq!(BERead::read::<Option<Option<bool>>>(&mut reader), Ok(Some(Some(true))));
    let mut writer = Writer::with_limit(2);
    assert_eq!(LEWrite::write(&mut writer, Some(0x002au16)), Err(Error::ShortWrite));
    assert_eq!(writer.bytes(), b"\x01");
}
