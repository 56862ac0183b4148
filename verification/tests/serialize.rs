use endio::{BEWrite, EWrite, Endianness, Error, LEWrite, Serialize, Writer};

#[test]
fn write_slice() {
    let data = b"\xba\xad\xba\xad";
    let mut writer = Writer::new();
    LEWrite::write(&mut writer, &[0xadbau16, 0xadbau16][..]).unwrap();
    assert_eq!(writer.bytes(), data);
}

#[test]
fn write_vec() {
    let data = b"\xba\xad\xba\xad";
    let mut writer = Writer::new();
    LEWrite::write(&mut writer, &vec![0xadbau16, 0xadbau16]).unwrap();
    assert_eq!(writer.bytes(), data);
}

#[test]
fn write_bool_false() {
    let data = b"\x00";
    let val = false;
    {
        let mut writer = Writer::new();
        BEWrite::write(&mut writer, val).unwrap();
        assert_eq!(writer.bytes(), data);
    }
    {
        let mut writer = Writer::new();
        LEWrite::write(&mut writer, val).unwrap();
        assert_eq!(writer.bytes(), data);
    }
}

#[test]
fn write_bool_true() {
    let data = b"\x01";
    let val = true;
    {
        let mut writer = Writer::new();
        BEWrite::write(&mut writer, val).unwrap();
        assert_eq!(writer.bytes(), data);
    }
    {
        let mut writer = Writer::new();
        LEWrite::write(&mut writer, val).unwrap();
        assert_eq!(writer.bytes(), data);
    }
}

#[test]
fn write_i8() {
    let data = b"\x80";
    let val = i8::min_value();
    {
        let mut writer = Writer::new();
        BEWrite::write(&mut writer, val).unwrap();
        assert_eq!(writer.bytes(), data);
    }
    {
        let mut writer = Writer::new();
        LEWrite::write(&mut writer, val).unwrap();
        assert_eq!(writer.bytes(), data);
    }
}

#[test]
fn write_u8() {
    let data = b"\xff";
    let val = u8::max_value();
    {
        let mut writer = Writer::new();
        BEWrite::write(&mut writer, val).unwrap();
        assert_eq!(writer.bytes(), data);
    }
    {
        let mut writer = Writer::new();
        LEWrite::write(&mut writer, val).unwrap();
        assert_eq!(writer.bytes(), data);
    }
}

// A float travels as the bit pattern of the unsigned integer of its width.

#[test]
fn write_f32() {
    let data = b"\x44\x20\xa7\x44";
    {
        let mut writer = Writer::new();
        BEWrite::write(&mut writer, 642.613525390625f32.to_bits()).unwrap();
        assert_eq!(writer.bytes(), data);
    }
    {
        let mut writer = Writer::new();
        LEWrite::write(&mut writer, 1337.0083007812f32.to_bits()).unwrap();
        assert_eq!(writer.bytes(), data);
    }
}

#[test]
fn write_f64() {
    let data = b"\x40\x94\x7a\x14\xae\xe5\x94\x40";
    {
        let mut writer = Writer::new();
        BEWrite::write(&mut writer, 1310.5201984283194f64.to_bits()).unwrap();
        assert_eq!(writer.bytes(), data);
    }
    {
        let mut writer = Writer::new();
        LEWrite::write(&mut writer, 1337.4199999955163f64.to_bits()).unwrap();
        assert_eq!(writer.bytes(), data);
    }
}

#[test]
fn write_ipv4_addr() {
    let data = b"\x7f\x00\x00\x01";
    {
        let mut writer = Writer::new();
        BEWrite::write(&mut writer, [127u8, 0, 0, 1]).unwrap();
        assert_eq!(writer.bytes(), data);
    }
    {
        let mut writer = Writer::new();
        LEWrite::write(&mut writer, [127u8, 0, 0, 1]).unwrap();
        assert_eq!(writer.bytes(), data);
    }
}

struct Test {
    a: u16,
}

impl<E: Endianness> Serialize<E> for Test
where
    u16: Serialize<E>,
{
    fn serialize(self, writer: &mut Writer) -> Result<(), Error> {
        EWrite::<E>::write(writer, self.a)?;
        Ok(())
    }
}

#[test]
fn write_struct_forced() {
    let data = b"\xba\xad";
    let mut writer = Writer::new();
    LEWrite::write_be(&mut writer, Test { a: 0xbaad }).unwrap();
    assert_eq!(&writer.bytes()[..], data);
}
