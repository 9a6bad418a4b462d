use bws::connection::{
    after_handshake, next_state_from, read_frame, read_frame_panics, read_varint, reads_compressed, uuid_from_string,
    write_frame, FrameError, NextState, State,
};
use bws::packets::{ClientBound, LoginClientBound, StatusClientBound};

#[test]
fn stream_varints() {
    assert_eq!(read_varint(&[0x00]), Some((0, 1)));
    assert_eq!(read_varint(&[0xac, 0x02, 0x99]), Some((300, 2)));
    assert_eq!(read_varint(&[0xff, 0xff, 0xff, 0xff, 0x0f]), Some((-1, 5)));
    // the fifth byte ends the VarInt whatever its high bit
    assert_eq!(read_varint(&[0xff, 0xff, 0xff, 0xff, 0xff, 0x01]), Some((-1, 5)));
    assert_eq!(read_varint(&[0x80, 0x80]), None);
    assert_eq!(read_varint(&[]), None);
}

#[test]
fn uncompressed_frames() {
    let payload = vec![1u8, 2, 3];
    let bytes = write_frame(&payload, true, -1);
    assert_eq!(bytes, vec![3, 1, 2, 3]);
    let bytes = write_frame(&payload, false, 10);
    assert_eq!(bytes, vec![3, 1, 2, 3]);
    let mut stream = bytes.clone();
    stream.extend_from_slice(&[9, 9]);
    assert_eq!(read_frame(&stream, false), Ok((payload.clone(), 4)));
    assert_eq!(read_frame(&[3, 1, 2], false), Err(FrameError::Eof));
}

#[test]
fn small_packets_are_not_compressed() {
    let payload = vec![7u8; 10];
    let bytes = write_frame(&payload, true, 256);
    let mut expected = vec![11u8, 0];
    expected.extend_from_slice(&payload);
    assert_eq!(bytes, expected);
    assert_eq!(read_frame(&bytes, true), Ok((payload, 12)));
}

#[test]
fn compressed_frames_read_back() {
    let payload: Vec<u8> = (0..1000u32).map(|i| (i % 7) as u8).collect();
    let bytes = write_frame(&payload, true, 256);
    // the body really is compressed
    assert!(bytes.len() < payload.len());
    assert_eq!(read_frame(&bytes, true), Ok((payload.clone(), bytes.len())));
    let (_, n1) = read_varint(&bytes).unwrap();
    let (size, n2) = read_varint(&bytes[n1..]).unwrap();
    assert_eq!(size, 1000);
    let mut decoder = flate2::read::ZlibDecoder::new(&bytes[n1 + n2..]);
    let mut out = Vec::new();
    std::io::Read::read_to_end(&mut decoder, &mut out).unwrap();
    assert_eq!(out, payload);
}

#[test]
fn frame_errors() {
    // a length above 0x1F_FFFF
    assert_eq!(read_frame(&[0x80, 0x80, 0x80, 0x01], false), Err(FrameError::TooBig));
    // a negative length
    assert_eq!(read_frame(&[0xff, 0xff, 0xff, 0xff, 0x0f], false), Err(FrameError::TooBig));
    // an uncompressed size above 0x1F_FFFF
    assert_eq!(read_frame(&[5, 0x80, 0x80, 0x80, 0x01, 0], true), Err(FrameError::UncompressedTooBig));
    // data that is no zlib stream
    assert_eq!(read_frame(&[4, 10, 1, 2, 3], true), Err(FrameError::Corrupt));
    assert_eq!(read_frame(&[], true), Err(FrameError::Eof));
    // a length that does not cover the uncompressed size
    assert!(read_frame_panics(&[0, 0], true));
    assert!(!read_frame_panics(&[1, 0], true));
    assert!(!read_frame_panics(&[0, 0], false));
}

#[test]
fn offline_uuids() {
    for name in ["OfflinePlayer:Notch", "", "abc"] {
        let mut d = md5::compute(name.as_bytes()).0;
        d[6] = (d[6] & 0x0f) | 0x30;
        d[8] = (d[8] & 0x3f) | 0x80;
        assert_eq!(uuid_from_string(name), u128::from_be_bytes(d));
    }
    let u = uuid_from_string("OfflinePlayer:Notch");
    // version 3, IETF variant
    assert_eq!((u >> 76) & 0xf, 3);
    assert_eq!((u >> 62) & 0x3, 2);
    assert_ne!(uuid_from_string("a"), uuid_from_string("b"));
}

#[test]
fn connection_states() {
    assert_eq!(i32::from(State::Handshake), 0);
    assert_eq!(i32::from(State::Status), 1);
    assert_eq!(i32::from(State::Login), 2);
    assert_eq!(i32::from(State::Play(7)), 3);
    assert_eq!(after_handshake(NextState::Status), State::Status);
    assert_eq!(after_handshake(NextState::Login), State::Login);
    assert!(reads_compressed(State::Play(0), 0));
    assert!(!reads_compressed(State::Play(0), -1));
    assert!(!reads_compressed(State::Login, 256));
}

#[test]
fn client_bound_packets() {
    assert!(matches!(StatusClientBound::Pong(5).cb(), ClientBound::Status(StatusClientBound::Pong(5))));
    let p = LoginClientBound::LoginSuccess { uuid: 1, username: String::from("x") };
    assert!(p.compressible());
    assert!(matches!(p.cb(), ClientBound::Login(LoginClientBound::LoginSuccess { uuid: 1, .. })));
    assert!(!LoginClientBound::SetCompression { treshold: bws::datatypes::VarInt(256) }.compressible());
}

#[test]
fn handshake_next_states() {
    assert_eq!(next_state_from(1), Some(NextState::Status));
    assert_eq!(next_state_from(2), Some(NextState::Login));
    assert_eq!(next_state_from(3), None);
    assert_eq!(next_state_from(0), None);
    assert_eq!(next_state_from(2).map(after_handshake), Some(State::Login));
}
