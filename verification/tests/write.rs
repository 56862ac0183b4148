use endio::{BEWrite, LEWrite, Writer};

const DATA: &[u8] = b"\xba\xad";

#[test]
fn write_be_forced() {
    let mut writer = Writer::new();
    LEWrite::write_be(&mut writer, 0xbaadu16).unwrap();
    assert_eq!(writer.bytes(), DATA);
}

#[test]
fn write_le_forced() {
    let mut writer = Writer::new();
    BEWrite::write_le(&mut writer, 0xadbau16).unwrap();
    assert_eq!(&writer.bytes()[..], DATA);
}
