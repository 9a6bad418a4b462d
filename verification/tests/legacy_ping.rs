use bws::datatypes::ByteCursor;
use bws::legacy_ping::{detect_legacy_ping, read_1_6, write_response, LegacyPingResponse, PingType, TooLong};
use bws::serverbase::default_legacy_ping;
use bws::legacy_ping::LegacyPing;

#[test]
fn detects_legacy_pings() {
    assert_eq!(detect_legacy_ping(&[0xFE]), Some(PingType::Pre1_4));
    assert_eq!(detect_legacy_ping(&[0xFE, 0x01]), Some(PingType::Pre1_6));
    assert_eq!(detect_legacy_ping(&[0xFE, 0x01, 0xFA, 0x00]), Some(PingType::Pre1_7));
    assert_eq!(detect_legacy_ping(&[0x10, 0x00]), None);
    assert_eq!(detect_legacy_ping(&[]), None);
    assert_eq!(detect_legacy_ping(&[0xFE, 0x02]), None);
}

#[test]
fn response_builder() {
    let r = LegacyPingResponse::new();
    assert_eq!(r.motd, "");
    assert_eq!(r.online, "");
    assert_eq!(r.max_players, "0");
    let r = r.motd(String::from("Hi")).online(12).max(2147483647).protocol(-5).version(String::from("v"));
    assert_eq!(r.motd, "Hi");
    assert_eq!(r.online, "12");
    assert_eq!(r.max_players, "2147483647");
    assert_eq!(r.protocol, "-5");
    assert_eq!(r.version, "v");
}

#[test]
fn pre_1_4_response() {
    let r = LegacyPingResponse::new().motd(String::from("A")).online(3).max(10);
    let bytes = r.encode_pre_1_4();
    assert_eq!(
        bytes,
        vec![
            0xFF, 0x00, 0x06, // packet id, 6 characters
            0x00, b'A', 0x00, 0xA7, 0x00, b'3', 0x00, 0xA7, 0x00, b'1', 0x00, b'0'
        ]
    );
}

#[test]
fn response_1_4_to_1_6() {
    let r = LegacyPingResponse::new()
        .motd(String::from("M"))
        .online(1)
        .max(2)
        .protocol(7)
        .version(String::from("V"));
    let bytes = r.encode_1_4_to_1_6();
    let expected = vec![
        0xFF, 0x00, 0x0C, // 12 characters: "§1\0" and "7\0V\0M\01\02"
        0x00, 0xA7, 0x00, 0x31, 0x00, 0x00, //
        0x00, b'7', 0x00, 0x00, //
        0x00, b'V', 0x00, 0x00, //
        0x00, b'M', 0x00, 0x00, //
        0x00, b'1', 0x00, 0x00, //
        0x00, b'2',
    ];
    assert_eq!(bytes, expected);
}

#[test]
fn response_length_limit() {
    let short = LegacyPingResponse::new().motd(String::from("x"));
    assert!(!short.too_long());
    let long = LegacyPingResponse::new().motd("y".repeat(250));
    assert!(long.too_long());
}

#[test]
fn surrogate_pairs_in_responses() {
    let r = LegacyPingResponse::new().motd(String::from("😀"));
    let bytes = r.encode_pre_1_4();
    // "😀§§0" is 5 UTF-16 code units but 4 characters
    assert_eq!(&bytes[..3], &[0xFF, 0x00, 0x04]);
    assert_eq!(&bytes[3..7], &[0xD8, 0x3D, 0xDE, 0x00]);
}

fn payload_1_6(hostname: &str, port: i32, protocol: u8) -> Vec<u8> {
    let mut b = vec![0xFE, 0x01, 0xFA];
    b.resize(27, 0);
    let units: Vec<u16> = hostname.encode_utf16().collect();
    let len = (units.len() * 2 + 7) as u16;
    b.extend_from_slice(&len.to_be_bytes());
    b.push(protocol);
    b.extend_from_slice(&len.to_be_bytes());
    for u in units {
        b.extend_from_slice(&u.to_be_bytes());
    }
    b.extend_from_slice(&port.to_be_bytes());
    b
}

#[test]
fn reads_1_6_payload() {
    let bytes = payload_1_6("localhost", 25565, 74);
    let mut cursor = ByteCursor::new(&bytes);
    let p = read_1_6(&mut cursor).unwrap();
    assert_eq!(p.protocol, 74);
    assert_eq!(p.hostname, "localhost");
    assert_eq!(p.port, 25565);
    assert_eq!(cursor.pos, bytes.len());
}

#[test]
fn reads_1_6_port_modulo() {
    let bytes = payload_1_6("h", 0x0001_0002, 1);
    let mut cursor = ByteCursor::new(&bytes);
    let p = read_1_6(&mut cursor).unwrap();
    assert_eq!(p.port, 2);
}

#[test]
fn truncated_1_6_payload() {
    let bytes = payload_1_6("localhost", 25565, 74);
    let cut = &bytes[..bytes.len() - 1];
    let mut cursor = ByteCursor::new(cut);
    assert!(read_1_6(&mut cursor).is_err());
}

#[test]
fn default_response() {
    let r = default_legacy_ping(&LegacyPing::Simple).unwrap();
    assert_eq!(r.motd, "A BWS server");
    assert_eq!(r.online, "0");
    assert_eq!(r.max_players, "1400");
    assert_eq!(r.protocol, "127");
    assert_eq!(r.version, "BWS");
}

#[test]
fn too_long_responses_are_refused() {
    let short = LegacyPingResponse::new().motd(String::from("hi"));
    assert_eq!(write_response(PingType::Pre1_4, &short), Ok(short.encode_pre_1_4()));
    assert_eq!(write_response(PingType::Pre1_6, &short), Ok(short.encode_1_4_to_1_6()));
    assert_eq!(write_response(PingType::Pre1_7, &short), Ok(short.encode_1_4_to_1_6()));
    let long = LegacyPingResponse::new().motd("y".repeat(250));
    assert_eq!(write_response(PingType::Pre1_4, &long), Err(TooLong));
}
