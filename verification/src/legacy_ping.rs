//! The server list ping of Minecraft clients before 1.7: recognising it,
//! reading its payload and writing the response.
use crate::datatypes::{ByteCursor, DecodeError, be16, from_be16, from_be32};
use crate::text::{
    chars_of, char_from_scalar, format_i64, signed_decimal, push_str_utf16_be, utf16_be_bytes,
};
use vstd::prelude::*;

verus! {

/// Which legacy ping a client sent.
#[derive(Debug, PartialEq, Eq, Clone, Copy, Structural)]
pub enum PingType {
    /// before 1.4
    Pre1_4,
    /// 1.4 and 1.5
    Pre1_6,
    /// 1.6, with a payload
    Pre1_7,
}

#[derive(Debug, PartialEq, Clone)]
pub enum LegacyPing {
    Simple,
    WithData { protocol: u8, hostname: String, port: u16 },
}

#[derive(Debug)]
pub struct LegacyPingPayload {
    pub protocol: u8,
    pub hostname: String,
    pub port: u16,
}

/// Keep in mind that a valid response has a length limit of 256 characters
#[derive(Debug, PartialEq, Clone)]
pub struct LegacyPingResponse {
    pub motd: String,
    pub online: String,
    pub max_players: String,
    /// Only available on 1.4-1.6 legacy ping
    pub protocol: String,
    /// Only available on 1.4-1.6 legacy ping
    pub version: String,
}

pub open spec fn spec_detect(buffered: Seq<u8>) -> Option<PingType> {
    if buffered =~= seq![0xFEu8] {
        Some(PingType::Pre1_4)
    } else if buffered =~= seq![0xFEu8, 0x01u8] {
        Some(PingType::Pre1_6)
    } else if buffered.len() >= 3 && buffered[0] == 0xFE && buffered[1] == 0x01 && buffered[2]
        == 0xFA {
        Some(PingType::Pre1_7)
    } else {
        None
    }
}

/// Recognises a legacy ping by the bytes first buffered from a new connection:
/// `None` when they are not one.
pub fn detect_legacy_ping(buffered: &[u8]) -> (res: Option<PingType>)
    ensures
        res == spec_detect(buffered@),
{
    if buffered.len() == 1 && buffered[0] == 0xFE {
        // Legacy ping before 1.4
        Some(PingType::Pre1_4)
    } else if buffered.len() == 2 && buffered[0] == 0xFE && buffered[1] == 0x01 {
        // Legacy ping before 1.6
        Some(PingType::Pre1_6)
    } else if buffered.len() >= 3 && buffered[0] == 0xFE && buffered[1] == 0x01 && buffered[2]
        == 0xFA {
        // Legacy ping 1.6
        Some(PingType::Pre1_7)
    } else {
        // Not a legacy ping
        None
    }
}

impl LegacyPingResponse {
    pub fn new() -> (res: Self)
        ensures
            res.motd@ == Seq::<char>::empty(),
            res.online@ == Seq::<char>::empty(),
            res.max_players@ == seq!['0'],
            res.protocol@ == Seq::<char>::empty(),
            res.version@ == Seq::<char>::empty(),
    {
        let zero = format_i64(0);
        assert(signed_decimal(0) =~= seq!['0']);
        Self {
            motd: String::new(),
            online: String::new(),
            max_players: zero,
            protocol: String::new(),
            version: String::new(),
        }
    }

    pub fn motd(self, motd: String) -> (res: Self)
        ensures
            res == (Self { motd, ..self }),
    {
        let mut s = self;
        s.motd = motd;
        s
    }

    /// `online` must not be bigger than [`i32::MAX`] (`2_147_483_647`)
    pub fn online(self, online: u32) -> (res: Self)
        requires
            online <= i32::MAX,
        ensures
            res.online@ == signed_decimal(online as int),
            res.motd == self.motd,
            res.max_players == self.max_players,
            res.protocol == self.protocol,
            res.version == self.version,
    {
        let mut s = self;
        s.online = format_i64(online as i64);
        s
    }

    /// `max` must not be bigger than [`i32::MAX`] (`2_147_483_647`)
    pub fn max(self, max: u32) -> (res: Self)
        requires
            max <= i32::MAX,
        ensures
            res.max_players@ == signed_decimal(max as int),
            res.motd == self.motd,
            res.online == self.online,
            res.protocol == self.protocol,
            res.version == self.version,
    {
        let mut s = self;
        s.max_players = format_i64(max as i64);
        s
    }

    /// Only 1.6 clients receive this data
    pub fn protocol(self, protocol: i32) -> (res: Self)
        ensures
            res.protocol@ == signed_decimal(protocol as int),
            res.motd == self.motd,
            res.online == self.online,
            res.max_players == self.max_players,
            res.version == self.version,
    {
        let mut s = self;
        s.protocol = format_i64(protocol as i64);
        s
    }

    /// Only 1.6 clients receive this data
    pub fn version(self, version: String) -> (res: Self)
        ensures
            res.version@ == version@,
            res.motd == self.motd,
            res.online == self.online,
            res.max_players == self.max_players,
            res.protocol == self.protocol,
    {
        let mut s = self;
        s.version = version;
        s
    }

    /// Characters that a response sends, delimiters and packet prefix included.
    pub open spec fn spec_length(&self) -> int {
        (self.motd@.len() + self.online@.len() + self.max_players@.len() + self.protocol@.len()
            + self.version@.len() + 4 + 3) as int
    }

    /// Whether the response is too long to be valid: more than 256 characters,
    /// counting the delimiters (2 in case of pre-1.4, but we want to support all)
    /// and the packet prefix (only 1.4-1.6).
    pub fn too_long(&self) -> (res: bool)
        ensures
            res == (self.spec_length() > 256),
    {
        let a = self.motd.as_str().unicode_len();
        let b = self.online.as_str().unicode_len();
        let c = self.max_players.as_str().unicode_len();
        let d = self.protocol.as_str().unicode_len();
        let e = self.version.as_str().unicode_len();
        if a > 256 || b > 256 || c > 256 || d > 256 || e > 256 {
            return true;
        }
        a + b + c + d + e + 4 + 3 > 256
    }

    /// The pre-1.4 payload: message of the day, online and maximum player counts,
    /// separated by `§`.
    pub open spec fn pre_1_4_payload(&self) -> Seq<char> {
        self.motd@ + seq!['§'] + self.online@ + seq!['§'] + self.max_players@
    }

    /// The bytes of the pre-1.4 response: packet ID 0xFF, the payload length in
    /// characters, then the payload in UTF-16.
    pub open spec fn spec_pre_1_4(&self) -> Seq<u8> {
        seq![0xFFu8] + be16(self.pre_1_4_payload().len() as u16) + utf16_be_bytes(
            self.pre_1_4_payload(),
        )
    }

    /// Writes the response for a pre-1.4 legacy ping.
    pub fn encode_pre_1_4(&self) -> (res: Vec<u8>)
        ensures
            res@ == self.spec_pre_1_4(),
    {
        let mut payload: Vec<char> = Vec::new();
        append_chars(&mut payload, self.motd.as_str());
        payload.push('§');
        append_chars(&mut payload, self.online.as_str());
        payload.push('§');
        append_chars(&mut payload, self.max_players.as_str());
        assert(payload@ =~= self.pre_1_4_payload());
        let payload = crate::text::string_from_chars(&payload);
        let len = payload.as_str().unicode_len();
        let mut buf: Vec<u8> = Vec::new();
        // packet ID
        buf.push(0xFF);
        // length in characters
        let l = len as u16;
        buf.push((l >> 8) as u8);
        buf.push(l as u8);
        // payload
        push_str_utf16_be(&mut buf, payload.as_str());
        assert(buf@ =~= self.spec_pre_1_4());
        buf
    }

    /// The five strings of the 1.4-1.6 response, each in UTF-16 and separated by two zero bytes.
    pub open spec fn body_1_4_to_1_6(&self) -> Seq<u8> {
        utf16_be_bytes(self.protocol@) + seq![0u8, 0u8] + utf16_be_bytes(self.version@) + seq![
            0u8,
            0u8,
        ] + utf16_be_bytes(self.motd@) + seq![0u8, 0u8] + utf16_be_bytes(self.online@) + seq![
            0u8,
            0u8,
        ] + utf16_be_bytes(self.max_players@)
    }

    /// The bytes of the 1.4-1.6 response: packet ID 0xFF, the length in
    /// characters, the constant "§1\0", then the body.
    pub open spec fn spec_1_4_to_1_6(&self) -> Seq<u8> {
        let ghost body = self.body_1_4_to_1_6();
        let chars = (6 + body.len()) / 2;
        seq![0xFFu8] + be16(chars as u16) + seq![0x00u8, 0xA7u8, 0x00u8, 0x31u8, 0x00u8, 0x00u8]
            + body
    }

    /// Writes the response for a 1.4-1.6 legacy ping.
    pub fn encode_1_4_to_1_6(&self) -> (res: Vec<u8>)
        ensures
            res@ == self.spec_1_4_to_1_6(),
    {
        let mut buf: Vec<u8> = Vec::new();
        // packet ID
        buf.push(0xFF);
        // placeholder for length
        buf.push(0x00);
        buf.push(0x00);
        // and some constant values
        buf.push(0x00);
        buf.push(0xA7);
        buf.push(0x00);
        buf.push(0x31);
        buf.push(0x00);
        buf.push(0x00);
        let ghost head = buf@;
        // payload
        push_separated(&mut buf, self.protocol.as_str());
        push_separated(&mut buf, self.version.as_str());
        push_separated(&mut buf, self.motd.as_str());
        push_separated(&mut buf, self.online.as_str());
        push_separated(&mut buf, self.max_players.as_str());
        let ghost body = self.body_1_4_to_1_6();
        assert(buf@ =~= head + body + seq![0u8, 0u8]);
        // remove trailing 0x00 0x00
        let n = buf.len() - 2;
        buf.truncate(n);
        assert(buf@ =~= head + body);
        let chars = (buf.len() - 3) / 2;
        // Length in characters
        let c = chars as u16;
        buf.set(1, (c >> 8) as u8);
        buf.set(2, c as u8);
        assert(buf@ =~= self.spec_1_4_to_1_6());
        buf
    }
}

/// Appends a string in UTF-16 followed by the two zero bytes that separate fields.
fn push_separated(buf: &mut Vec<u8>, s: &str)
    ensures
        final(buf)@ == old(buf)@ + utf16_be_bytes(s@) + seq![0u8, 0u8],
{
    push_str_utf16_be(buf, s);
    buf.push(0x00);
    buf.push(0x00);
    assert(buf@ =~= old(buf)@ + utf16_be_bytes(s@) + seq![0u8, 0u8]);
}

fn append_chars(out: &mut Vec<char>, s: &str)
    ensures
        final(out)@ == old(out)@ + s@,
{
    let chars = chars_of(s);
    let mut i: usize = 0;
    while i < chars.len()
        invariant
            chars@ == s@,
            i <= chars@.len(),
            out@ == old(out)@ + chars@.take(i as int),
        decreases chars@.len() - i,
    {
        out.push(chars[i]);
        i = i + 1;
        assert(out@ =~= old(out)@ + chars@.take(i as int));
    }
    assert(chars@.take(chars@.len() as int) =~= chars@);
}

// Reading the 1.6 payload //
/////////////////////////////

/// UTF-16 decoding that replaces every unpaired surrogate with U+FFFD, as
/// `String::from_utf16_lossy` does.
pub open spec fn utf16_decode_lossy(u: Seq<u16>) -> Seq<char>
    decreases u.len(),
{
    if u.len() == 0 {
        Seq::empty()
    } else {
        let a = u[0];
        if a < 0xD800 || a >= 0xE000 {
            seq![a as char] + utf16_decode_lossy(u.skip(1))
        } else if a < 0xDC00 && u.len() >= 2 && 0xDC00 <= u[1] < 0xE000 {
            seq![(0x10000 + ((a - 0xD800) as u32) * 0x400 + ((u[1] - 0xDC00) as u32)) as char]
                + utf16_decode_lossy(u.skip(2))
        } else {
            seq!['\u{FFFD}'] + utf16_decode_lossy(u.skip(1))
        }
    }
}

/// Big-endian pairs of bytes as code units; a trailing odd byte is not read.
pub open spec fn be_units(b: Seq<u8>) -> Seq<u16> {
    Seq::new(b.len() / 2, |i: int| from_be16(b.subrange(2 * i, 2 * i + 2)))
}

fn decode_utf16_lossy(units: &Vec<u16>) -> (res: String)
    ensures
        res@ == utf16_decode_lossy(units@),
{
    let mut out: Vec<char> = Vec::new();
    let mut i: usize = 0;
    assert(units@.skip(0) =~= units@);
    while i < units.len()
        invariant
            i <= units@.len(),
            out@ + utf16_decode_lossy(units@.skip(i as int)) == utf16_decode_lossy(units@),
        decreases units@.len() - i,
    {
        let a = units[i];
        let ghost rest = units@.skip(i as int);
        if a < 0xD800 || a >= 0xE000 {
            out.push(char_from_scalar(a as u32));
            assert(rest.skip(1) =~= units@.skip(i + 1));
            i = i + 1;
        } else if a < 0xDC00 && i + 1 < units.len() && 0xDC00 <= units[i + 1] && units[i + 1]
            < 0xE000 {
            let x = 0x10000 + ((a - 0xD800) as u32) * 0x400 + ((units[i + 1] - 0xDC00) as u32);
            out.push(char_from_scalar(x));
            assert(rest.skip(2) =~= units@.skip(i + 2));
            i = i + 2;
        } else {
            out.push('\u{FFFD}');
            assert(rest.skip(1) =~= units@.skip(i + 1));
            i = i + 1;
        }
    }
    assert(units@.skip(i as int) =~= Seq::<u16>::empty());
    assert(out@ =~= utf16_decode_lossy(units@));
    crate::text::string_from_chars(&out)
}

/// Whether reading the 1.6 payload from `b` returns rather than panics: the
/// announced length must cover the 7 bytes that follow it, and the hostname
/// must be whole code units.
pub open spec fn payload_1_6_defined(b: Seq<u8>) -> bool {
    b.len() >= 29 ==> {
        let raw = from_be16(b.subrange(27, 29));
        raw >= 7 && (raw - 7) % 2 == 0
    }
}

/// Whether reading the 1.6 payload from these bytes would panic.
pub fn payload_1_6_panics(b: &[u8]) -> (res: bool)
    ensures
        res == !payload_1_6_defined(b@),
{
    if b.len() < 29 {
        return false;
    }
    let raw = ((b[27] as u16) << 8) | (b[28] as u16);
    !(raw >= 7 && (raw - 7) % 2 == 0)
}

/// The payload that a 1.6 legacy ping carries after its 27 constant bytes:
/// `None` when the input ends first.
pub open spec fn spec_payload_1_6(b: Seq<u8>) -> Option<(u8, Seq<char>, u16, nat)> {
    if b.len() < 32 {
        None
    } else {
        let hostname_len = from_be16(b.subrange(27, 29)) - 7;
        let end = 32 + hostname_len;
        if b.len() < end + 4 {
            None
        } else {
            Some(
                (
                    b[29],
                    utf16_decode_lossy(be_units(b.subrange(32, end))),
                    from_be32(b.subrange(end, end + 4)) as u16,
                    (end + 4) as nat,
                ),
            )
        }
    }
}

/// Reads the payload of a 1.6 legacy ping.
pub fn read_1_6(input: &mut ByteCursor) -> (res: Result<LegacyPingPayload, DecodeError>)
    requires
        old(input).wf(),
        payload_1_6_defined(old(input).remaining()),
    ensures
        final(input).wf(),
        match spec_payload_1_6(old(input).remaining()) {
            Some((protocol, hostname, port, n)) => {
                &&& res is Ok
                &&& res->Ok_0.protocol == protocol
                &&& res->Ok_0.hostname@ == hostname
                &&& res->Ok_0.port == port
                &&& final(input).pos == old(input).pos + n
            },
            None => res is Err,
        },
{
    let ghost b = old(input).remaining();
    // consume first 27 bytes which are always the same
    let _ = input.read_exact(27)?;
    let raw = input.read_exact(2)?;
    let raw = ((raw[0] as u16) << 8) | (raw[1] as u16);
    assert(raw == from_be16(b.subrange(27, 29)));
    let hostname_len = raw - 7;
    let protocol = input.read_exact(1)?;
    let protocol = protocol[0];
    // hostname length again...
    let _ = input.read_exact(2)?;
    let hostname = input.read_exact(hostname_len as usize)?;
    let mut units: Vec<u16> = Vec::new();
    let mut k: usize = 0;
    while k + 1 < hostname.len()
        invariant
            hostname@.len() % 2 == 0,
            k % 2 == 0,
            k <= hostname@.len(),
            units@ == be_units(hostname@).take(k as int / 2),
        decreases hostname@.len() - k,
    {
        let u = ((hostname[k] as u16) << 8) | (hostname[k + 1] as u16);
        units.push(u);
        assert(hostname@.subrange(k as int, k + 2)[0] == hostname@[k as int]);
        assert(units@ =~= be_units(hostname@).take((k + 2) as int / 2));
        k = k + 2;
    }
    assert(units@ =~= be_units(hostname@));
    assert(hostname@ =~= b.subrange(32, 32 + hostname_len));
    let hostname = decode_utf16_lossy(&units);
    let port = input.read_exact(4)?;
    let port = ((port[0] as u32) << 24) | ((port[1] as u32) << 16) | ((port[2] as u32) << 8) | (
    port[3] as u32);
    assert(port == from_be32(b.subrange(32 + hostname_len, 36 + hostname_len)));
    let port = port as i32 as u16;
    assert(port == (from_be32(b.subrange(32 + hostname_len, 36 + hostname_len)) as u16)) by {
        let p = from_be32(b.subrange(32 + hostname_len, 36 + hostname_len));
        assert((p as i32) as u16 == p as u16) by (bit_vector);
    }
    Ok(LegacyPingPayload { protocol, hostname, port })
}

/// A legacy ping response over 256 characters: "Legacy ping response too long".
#[derive(Clone, Copy, Debug, PartialEq, Eq, Structural)]
pub struct TooLong;

/// The bytes that answer a legacy ping of this type, in the format its
/// client reads; a response too long to be valid is refused.
pub fn write_response(ping_type: PingType, response: &LegacyPingResponse) -> (res: Result<
    Vec<u8>,
    TooLong,
>)
    ensures
        response.spec_length() > 256 ==> res == Err::<Vec<u8>, TooLong>(TooLong),
        response.spec_length() <= 256 ==> res is Ok && res->Ok_0@ == (match ping_type {
            PingType::Pre1_4 => response.spec_pre_1_4(),
            _ => response.spec_1_4_to_1_6(),
        }),
{
    // Validate length to help debug invalid packets
    if response.too_long() {
        return Err(TooLong);
    }
    match ping_type {
        PingType::Pre1_4 => Ok(response.encode_pre_1_4()),
        PingType::Pre1_6 | PingType::Pre1_7 => Ok(response.encode_1_4_to_1_6()),
    }
}

} // verus!
