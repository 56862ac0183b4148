use endio::{BERead, LERead, Reader};

const DATA: &[u8] = b"\xba\xad";

#[test]
fn read_be_forced() {
    let mut reader = Reader::new(&DATA[..]);
    let val: u16 = LERead::read_be(&mut reader).unwrap();
    assert_eq!(val, 0xbaad);
}

#[test]
fn read_le_forced() {
    let mut reader = Reader::new(&DATA[..]);
    let val: u16 = BERead::read_le(&mut reader).unwrap();
    assert_eq!(val, 0xadba);
}
