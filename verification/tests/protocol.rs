use bws::datatypes::{ByteCursor, Chat, DataType, DecodeError, Slot, VarInt};

fn encode<T: DataType>(v: T) -> Vec<u8> {
    let mut out = Vec::new();
    v.serialize(&mut out);
    out
}

#[test]
fn enum_inlining() {
    // an enum written as its discriminant (here a u16) and then its fields
    let mut out = Vec::new();
    1u16.serialize(&mut out);
    String::from("second").serialize(&mut out);
    assert_eq!(out[..2], [0x00, 0x01]);
    let mut cursor = ByteCursor::new(&out);
    assert_eq!(u16::deserialize(&mut cursor), Ok(1));
    assert_eq!(String::deserialize(&mut cursor), Ok(String::from("second")));
    assert_eq!(cursor.pos, out.len());

    // a child enum with an i64 discriminant and an i16 field
    let mut out = Vec::new();
    3i64.serialize(&mut out);
    (-2i16).serialize(&mut out);
    assert_eq!(out, vec![0, 0, 0, 0, 0, 0, 0, 3, 0xff, 0xfe]);
    let mut cursor = ByteCursor::new(&out);
    assert_eq!(i64::deserialize(&mut cursor), Ok(3));
    assert_eq!(i16::deserialize(&mut cursor), Ok(-2));
}

#[test]
fn lifetimes() {
    // a struct of two strings is written field after field
    let mut out = Vec::new();
    String::from("ab").serialize(&mut out);
    String::from("").serialize(&mut out);
    assert_eq!(out, vec![2, b'a', b'b', 0]);
    let mut cursor = ByteCursor::new(&out);
    assert_eq!(String::deserialize(&mut cursor), Ok(String::from("ab")));
    assert_eq!(String::deserialize(&mut cursor), Ok(String::new()));
}

#[test]
fn varint_encodings() {
    assert_eq!(encode(VarInt(0)), vec![0x00]);
    assert_eq!(encode(VarInt(1)), vec![0x01]);
    assert_eq!(encode(VarInt(127)), vec![0x7f]);
    assert_eq!(encode(VarInt(128)), vec![0x80, 0x01]);
    assert_eq!(encode(VarInt(255)), vec![0xff, 0x01]);
    assert_eq!(encode(VarInt(300)), vec![0xac, 0x02]);
    assert_eq!(encode(VarInt(2147483647)), vec![0xff, 0xff, 0xff, 0xff, 0x07]);
    assert_eq!(encode(VarInt(-1)), vec![0xff, 0xff, 0xff, 0xff, 0x0f]);
    assert_eq!(encode(VarInt(-2147483648)), vec![0x80, 0x80, 0x80, 0x80, 0x08]);
}

#[test]
fn varint_size_matches_encoding() {
    for v in [0, 1, 127, 128, 16383, 16384, 2097151, 2097152, 268435455, 268435456, -1, i32::MIN, i32::MAX] {
        assert_eq!(VarInt(v).size() as usize, encode(VarInt(v)).len());
    }
    assert_eq!(VarInt(0).size(), 1);
    assert_eq!(VarInt(300).size(), 2);
    assert_eq!(VarInt(-1).size(), 5);
}

#[test]
fn varint_roundtrip() {
    for v in [0, 5, 300, -7, 1 << 20, i32::MIN, i32::MAX] {
        let bytes = encode(VarInt(v));
        let mut cursor = ByteCursor::new(&bytes);
        assert_eq!(VarInt::deserialize(&mut cursor), Ok(VarInt(v)));
        assert_eq!(cursor.pos, bytes.len());
    }
}

#[test]
fn varint_truncated() {
    let bytes = [0x80u8, 0x80];
    let mut cursor = ByteCursor::new(&bytes);
    assert_eq!(VarInt::deserialize(&mut cursor), Err(DecodeError::UnexpectedEof));
}

#[test]
fn fixed_width_integers() {
    assert_eq!(encode(0x1234u16), vec![0x12, 0x34]);
    assert_eq!(encode(-1i32), vec![0xff, 0xff, 0xff, 0xff]);
    assert_eq!(encode(7u8), vec![7]);
    assert_eq!(encode(-1i8), vec![0xff]);
    assert_eq!(encode(true), vec![1]);
    assert_eq!(encode(false), vec![0]);
    let v: u128 = 0x0102030405060708090a0b0c0d0e0f10;
    let bytes = encode(v);
    assert_eq!(bytes, (1u8..=16).collect::<Vec<u8>>());
    let mut cursor = ByteCursor::new(&bytes);
    assert_eq!(u128::deserialize(&mut cursor), Ok(v));
}

#[test]
fn fixed_width_too_short() {
    let bytes = [1u8, 2, 3];
    let mut cursor = ByteCursor::new(&bytes);
    assert_eq!(i64::deserialize(&mut cursor), Err(DecodeError::UnexpectedEof));
}

#[test]
fn strings_and_vectors() {
    let bytes = encode(String::from("héllo"));
    assert_eq!(bytes[0], 6);
    assert_eq!(&bytes[1..], "héllo".as_bytes());
    let v: Vec<u16> = vec![1, 2];
    assert_eq!(encode(v), vec![2, 0, 1, 0, 2]);
    let bytes = vec![2u8, 0, 1, 0, 2];
    let mut cursor = ByteCursor::new(&bytes);
    assert_eq!(Vec::<u16>::deserialize(&mut cursor), Ok(vec![1u16, 2]));
}

#[test]
fn chat_is_a_string() {
    assert_eq!(encode(Chat(String::from("{}"))), vec![2, b'{', b'}']);
}

#[test]
fn slots() {
    assert_eq!(encode(Slot::NotPresent), vec![0]);
    assert_eq!(encode(Slot::Present(VarInt(300), 2)), vec![1, 0xac, 0x02, 2]);
    let bytes = [1u8, 0xac, 0x02, 0xff];
    let mut cursor = ByteCursor::new(&bytes);
    assert_eq!(Slot::deserialize(&mut cursor), Ok(Slot::Present(VarInt(300), -1)));
}

#[test]
fn strings_are_read_lossily() {
    let bytes = [2u8, 0xff, b'a'];
    let mut cursor = ByteCursor::new(&bytes);
    assert_eq!(String::deserialize(&mut cursor), Ok(String::from("\u{FFFD}a")));
}
