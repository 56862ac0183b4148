use endio::{BERead, Deserialize, ERead, Endianness, Error, ErrorKind, LERead, Reader};

#[test]
fn read_bool_false() {
    let data = b"\x00";
    let mut val: bool;
    {
        let mut reader = Reader::new(&data[..]);
        val = BERead::read(&mut reader).unwrap();
        assert_eq!(val, false);
    }
    {
        let mut reader = Reader::new(&data[..]);
        val = LERead::read(&mut reader).unwrap();
        assert_eq!(val, false);
    }
}

#[test]
fn read_bool_true() {
    let data = b"\x01";
    let mut val: bool;
    {
        let mut reader = Reader::new(&data[..]);
        val = BERead::read(&mut reader).unwrap();
        assert_eq!(val, true);
    }
    {
        let mut reader = Reader::new(&data[..]);
        val = LERead::read(&mut reader).unwrap();
        assert_eq!(val, true);
    }
}

#[test]
fn read_bool_invalid() {
    let data = b"\x2a";
    let mut val;
    {
        let mut reader = Reader::new(&data[..]);
        val = BERead::read::<bool>(&mut reader).unwrap_err();
        assert_eq!(val.kind(), ErrorKind::InvalidData);
        assert_eq!(val, Error::InvalidBooleanByte(0x2a));
    }
    {
        let mut reader = Reader::new(&data[..]);
        val = LERead::read::<bool>(&mut reader).unwrap_err();
        assert_eq!(val.kind(), ErrorKind::InvalidData);
        assert_eq!(val, Error::InvalidBooleanByte(0x2a));
    }
}

#[test]
fn read_i8() {
    let data = b"\x80";
    let mut val: i8;
    {
        let mut reader = Reader::new(&data[..]);
        val = BERead::read(&mut reader).unwrap();
        assert_eq!(val, i8::min_value());
    }
    {
        let mut reader = Reader::new(&data[..]);
        val = LERead::read(&mut reader).unwrap();
        assert_eq!(val, i8::min_value());
    }
}

#[test]
fn read_u8() {
    let data = b"\xff";
    let mut val: u8;
    {
        let mut reader = Reader::new(&data[..]);
        val = BERead::read(&mut reader).unwrap();
        assert_eq!(val, u8::max_value());
    }
    {
        let mut reader = Reader::new(&data[..]);
        val = LERead::read(&mut reader).unwrap();
        assert_eq!(val, u8::max_value());
    }
}

// A float travels as the bit pattern of the unsigned integer of its width.

#[test]
fn read_f32() {
    let data = b"\x44\x20\xa7\x44";
    let mut val: f32;
    {
        let mut reader = Reader::new(&data[..]);
        let bits: u32 = BERead::read(&mut reader).unwrap();
        val = f32::from_bits(bits);
        assert_eq!(val, 642.613525390625);
    }
    {
        let mut reader = Reader::new(&data[..]);
        let bits: u32 = LERead::read(&mut reader).unwrap();
        val = f32::from_bits(bits);
        assert_eq!(val, 1337.0083007812);
    }
}

#[test]
fn read_f64() {
    let data = b"\x40\x94\x7a\x14\xae\xe5\x94\x40";
    let mut val: f64;
    {
        let mut reader = Reader::new(&data[..]);
        let bits: u64 = BERead::read(&mut reader).unwrap();
        val = f64::from_bits(bits);
        assert_eq!(val, 1310.5201984283194);
    }
    {
        let mut reader = Reader::new(&data[..]);
        let bits: u64 = LERead::read(&mut reader).unwrap();
        val = f64::from_bits(bits);
        assert_eq!(val, 1337.4199999955163);
    }
}

#[test]
fn read_ipv4_addr() {
    let data = b"\x7f\x00\x00\x01";
    let mut val: [u8; 4];
    {
        let mut reader = Reader::new(&data[..]);
        val = BERead::read(&mut reader).unwrap();
        assert_eq!(val, [127, 0, 0, 1]);
    }
    {
        let mut reader = Reader::new(&data[..]);
        val = LERead::read(&mut reader).unwrap();
        assert_eq!(val, [127, 0, 0, 1]);
    }
}

#[test]
fn read_option_none() {
    let data = b"\x00";
    let val: Option<u16>;
    let mut reader = Reader::new(&data[..]);
    val = LERead::read(&mut reader).unwrap();
    assert_eq!(val, None);
}

#[test]
fn read_option_some() {
    let data = b"\x01\x2a\x00";
    let val: Option<u16>;
    let mut reader = Reader::new(&data[..]);
    val = LERead::read(&mut reader).unwrap();
    assert_eq!(val, Some(0x002a));
}

struct Test {
    a: u16,
}

impl<E: Endianness> Deserialize<E> for Test
where
    u16: Deserialize<E>,
{
    fn deserialize(reader: &mut Reader) -> Result<Self, Error> {
        let a = ERead::<E>::read(reader)?;
        Ok(Test { a })
    }
}

#[test]
fn read_struct_forced() {
    let data = b"\xba\xad";
    let mut reader = Reader::new(&data[..]);
    let val: Test = LERead::read_be(&mut reader).unwrap();
    assert_eq!(val.a, 0xbaad);
}
