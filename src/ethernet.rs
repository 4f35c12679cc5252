use vstd::prelude::*;
use vstd::string::StringExecFns;

use crate::protocols::{be16, be16_value, write_bytes, write_u16, ParseError, Parser};

verus! {

pub const ETHERNET_CRC_SIZE: usize = 4;

pub const ETHERNET_MAC_ADDR_SIZE: usize = 6;

/// Length of the textual form `XX:XX:XX:XX:XX:XX`.
pub const MAC_ADDRESS_STR_LEN: usize = 17;

/// A six-byte hardware address.
#[derive(Debug, Hash, Eq, Clone, Copy)]
pub struct MacAddress(pub [u8; ETHERNET_MAC_ADDR_SIZE]);

/// The textual form of a malformed address, or a byte string of the wrong length.
#[derive(Debug, PartialEq, Eq, Clone, Copy, Structural)]
pub struct InvalidMacAddress;

impl View for MacAddress {
    type V = Seq<u8>;

    open spec fn view(&self) -> Seq<u8> {
        self.0@
    }
}

impl PartialEq for MacAddress {
    fn eq(&self, other: &MacAddress) -> (r: bool) {
        let r = self.0[0] == other.0[0] && self.0[1] == other.0[1] && self.0[2] == other.0[2]
            && self.0[3] == other.0[3] && self.0[4] == other.0[4] && self.0[5] == other.0[5];
        assert(r ==> self@ =~= other@);
        r
    }
}

impl vstd::std_specs::cmp::PartialEqSpecImpl for MacAddress {
    open spec fn obeys_eq_spec() -> bool {
        true
    }

    open spec fn eq_spec(&self, other: &MacAddress) -> bool {
        self@ == other@
    }
}

/// The upper-case hexadecimal digit of `n`, for `n < 16`.
pub open spec fn hex_char(n: nat) -> char {
    seq!['0', '1', '2', '3', '4', '5', '6', '7', '8', '9', 'A', 'B', 'C', 'D', 'E', 'F'][n as int]
}

/// The value of a hexadecimal digit of either case.
pub open spec fn hex_value(c: char) -> Option<nat> {
    let v = c as nat;
    if 48 <= v <= 57 {
        Some((v - 48) as nat)
    } else if 65 <= v <= 70 {
        Some((v - 55) as nat)
    } else if 97 <= v <= 102 {
        Some((v - 87) as nat)
    } else {
        None
    }
}

/// The textual form of six bytes: two upper-case hex digits per byte, joined by `:`.
pub open spec fn mac_text(b: Seq<u8>) -> Seq<char> {
    Seq::new(
        17,
        |j: int|
            if j % 3 == 2 {
                ':'
            } else if j % 3 == 0 {
                hex_char((b[j / 3] / 16) as nat)
            } else {
                hex_char((b[j / 3] % 16) as nat)
            },
    )
}

/// `s` is six two-digit hex groups joined by `:`.
pub open spec fn is_mac_text(s: Seq<char>) -> bool {
    &&& s.len() == 17
    &&& forall|j: int|
        #![trigger s[j]]
        0 <= j < 17 ==> if j % 3 == 2 {
            s[j] == ':'
        } else {
            hex_value(s[j]) is Some
        }
}

/// The six bytes written in a text for which `is_mac_text` holds.
pub open spec fn text_bytes(s: Seq<char>) -> Seq<u8> {
    Seq::new(
        6,
        |g: int| (hex_value(s[3 * g])->Some_0 * 16 + hex_value(s[3 * g + 1])->Some_0) as u8,
    )
}

proof fn lemma_mac_text_is_ascii(s: Seq<char>)
    requires
        is_mac_text(s),
    ensures
        vstd::utf8::is_ascii_chars(s),
{
    assert forall|i: int| 0 <= i < s.len() implies '\0' <= #[trigger] s[i] && s[i] <= '\u{7f}' by {
        if i % 3 != 2 {
            assert(hex_value(s[i]) is Some);
        }
        lemma_ascii_char(s[i]);
    }
}

proof fn lemma_ascii_char(c: char)
    requires
        c == ':' || hex_value(c) is Some,
    ensures
        '\0' <= c && c <= '\u{7f}',
{
}

proof fn lemma_char_code(c: char, d: char)
    requires
        c as nat == d as nat,
    ensures
        c == d,
{
}

/// The one-character string of the hex digit of `n`.
fn hex_digit(n: u8) -> (r: &'static str)
    requires
        n < 16,
    ensures
        r@ == seq![hex_char(n as nat)],
{
    match n {
        0 => { proof { reveal_strlit("0"); } "0" },
        1 => { proof { reveal_strlit("1"); } "1" },
        2 => { proof { reveal_strlit("2"); } "2" },
        3 => { proof { reveal_strlit("3"); } "3" },
        4 => { proof { reveal_strlit("4"); } "4" },
        5 => { proof { reveal_strlit("5"); } "5" },
        6 => { proof { reveal_strlit("6"); } "6" },
        7 => { proof { reveal_strlit("7"); } "7" },
        8 => { proof { reveal_strlit("8"); } "8" },
        9 => { proof { reveal_strlit("9"); } "9" },
        10 => { proof { reveal_strlit("A"); } "A" },
        11 => { proof { reveal_strlit("B"); } "B" },
        12 => { proof { reveal_strlit("C"); } "C" },
        13 => { proof { reveal_strlit("D"); } "D" },
        14 => { proof { reveal_strlit("E"); } "E" },
        _ => { proof { reveal_strlit("F"); } "F" },
    }
}

/// The value of an ASCII hex digit of either case.
fn hex_byte_value(b: u8) -> (r: Option<u8>)
    ensures
        r matches Some(v) ==> v < 16,
        forall|c: char|
            c as nat == b as nat ==> (r is None <==> hex_value(c) is None) && (r is Some ==> hex_value(
                c,
            ) == Some(r->Some_0 as nat)),
{
    if 48 <= b && b <= 57 {
        Some(b - 48)
    } else if 65 <= b && b <= 70 {
        Some(b - 55)
    } else if 97 <= b && b <= 102 {
        Some(b - 87)
    } else {
        None
    }
}

impl MacAddress {
    /// The address with every bit set.
    pub open spec fn is_broadcast(&self) -> bool {
        self@ == seq![0xFFu8, 0xFF, 0xFF, 0xFF, 0xFF, 0xFF]
    }

    pub fn broadcast() -> (r: MacAddress)
        ensures
            r.is_broadcast(),
    {
        let r = MacAddress([0xFF, 0xFF, 0xFF, 0xFF, 0xFF, 0xFF]);
        assert(r@[0] == 0xFF && r@[1] == 0xFF && r@[2] == 0xFF && r@[3] == 0xFF && r@[4] == 0xFF && r@[5] == 0xFF);
        assert(r@ =~= seq![0xFFu8, 0xFF, 0xFF, 0xFF, 0xFF, 0xFF]);
        r
    }

    pub fn build(bytes: &[u8]) -> (r: Result<MacAddress, InvalidMacAddress>)
        ensures
            r is Ok <==> bytes@.len() == 6,
            r matches Ok(a) ==> a@ == bytes@,
    {
        if bytes.len() == ETHERNET_MAC_ADDR_SIZE {
            let a = MacAddress([bytes[0], bytes[1], bytes[2], bytes[3], bytes[4], bytes[5]]);
            assert(a@ =~= bytes@);
            Ok(a)
        } else {
            Err(InvalidMacAddress)
        }
    }

    pub fn new(bytes: [u8; ETHERNET_MAC_ADDR_SIZE]) -> (r: MacAddress)
        ensures
            r@ == bytes@,
    {
        MacAddress(bytes)
    }

    /// Parses the textual form `XX:XX:XX:XX:XX:XX`; hex digits may be of either case.
    pub fn from(data: &str) -> (r: Result<MacAddress, InvalidMacAddress>)
        ensures
            r is Ok <==> is_mac_text(data@),
            r matches Ok(a) ==> a@ == text_bytes(data@),
    {
        broadcast use vstd::string::is_ascii_spec_bytes, vstd::utf8::is_ascii_chars_nat_bound;

        if !data.is_ascii() {
            proof {
                if is_mac_text(data@) {
                    lemma_mac_text_is_ascii(data@);
                }
            }
            return Err(InvalidMacAddress);
        }
        let bytes = data.as_bytes();
        assert(bytes@.len() == data@.len());
        if bytes.len() != MAC_ADDRESS_STR_LEN {
            return Err(InvalidMacAddress);
        }
        let mut out: [u8; ETHERNET_MAC_ADDR_SIZE] = [0; ETHERNET_MAC_ADDR_SIZE];
        let mut g: usize = 0;
        while g < ETHERNET_MAC_ADDR_SIZE
            invariant
                g <= 6,
                bytes@.len() == 17,
                data@.len() == 17,
                forall|i: int| 0 <= i < 17 ==> (#[trigger] bytes@[i]) as nat == data@[i] as nat,
                forall|j: int|
                    #![trigger data@[j]]
                    0 <= j < 3 * g && j < 17 ==> if j % 3 == 2 {
                        data@[j] == ':'
                    } else {
                        hex_value(data@[j]) is Some
                    },
                forall|k: int| 0 <= k < g ==> out@[k] == text_bytes(data@)[k],
            decreases 6 - g,
        {
            let hi = hex_byte_value(bytes[3 * g]);
            let lo = hex_byte_value(bytes[3 * g + 1]);
            let ghost c0 = data@[3 * g as int];
            let ghost c1 = data@[3 * g as int + 1];
            assert(bytes@[3 * g as int] as nat == c0 as nat);
            assert(bytes@[3 * g as int + 1] as nat == c1 as nat);
            match (hi, lo) {
                (Some(h), Some(l)) => {
                    if g < 5 && bytes[3 * g + 2] != 58 {
                        assert(data@[3 * g as int + 2] != ':') by {
                            assert(bytes@[3 * g as int + 2] as nat == data@[3 * g as int + 2] as nat);
                        }
                        assert(!is_mac_text(data@)) by {
                            assert((3 * g as int + 2) % 3 == 2);
                        }
                        return Err(InvalidMacAddress);
                    }
                    proof {
                        assert(hex_value(c0) is Some);
                        assert(hex_value(c1) is Some);
                        if g < 5 {
                            assert(bytes@[3 * g as int + 2] as nat == data@[3 * g as int + 2] as nat);
                            assert(data@[3 * g as int + 2] as nat == ':' as nat);
                            lemma_char_code(data@[3 * g as int + 2], ':');
                        }
                    }
                    out[g] = h * 16 + l;
                    assert(out@[g as int] == text_bytes(data@)[g as int]);
                },
                _ => {
                    assert(!is_mac_text(data@)) by {
                        assert((3 * g as int) % 3 == 0);
                        assert((3 * g as int + 1) % 3 == 1);
                    }
                    return Err(InvalidMacAddress);
                },
            }
            proof {
                assert forall|j: int|
                    #![trigger data@[j]]
                    0 <= j < 3 * (g + 1) && j < 17 implies if j % 3 == 2 {
                        data@[j] == ':'
                    } else {
                        hex_value(data@[j]) is Some
                    } by {
                    if j >= 3 * g {
                        assert(j == 3 * g || j == 3 * g + 1 || j == 3 * g + 2);
                    }
                }
            }
            g = g + 1;
        }
        let a = MacAddress(out);
        assert(a@ =~= text_bytes(data@));
        Ok(a)
    }

    pub fn as_bytes(&self) -> (r: &[u8])
        ensures
            r@ == self@,
    {
        self.0.as_slice()
    }

    /// The textual form: six upper-case hex pairs joined by `:`.
    pub fn to_string(&self) -> (r: String)
        ensures
            r@ == mac_text(self@),
    {
        let mut s = String::new();
        let mut g: usize = 0;
        while g < ETHERNET_MAC_ADDR_SIZE
            invariant
                g <= 6,
                s@.len() == if g == 0 { 0 } else { 3 * g - 1 },
                forall|j: int| 0 <= j < s@.len() ==> s@[j] == mac_text(self@)[j],
            decreases 6 - g,
        {
            if g > 0 {
                proof { reveal_strlit(":"); }
                s.append(":");
            }
            let b = self.0[g];
            s.append(hex_digit(b / 16));
            s.append(hex_digit(b % 16));
            g = g + 1;
        }
        assert(s@ =~= mac_text(self@));
        s
    }
}

} // verus!

verus! {

/// Name of the protocol field, as reported by `ParseError::InvalidFieldValue`.
pub const PROTOCOL_FIELD: &'static str = "protocol";

/// The protocol carried by a frame.
#[derive(Debug, Clone, Copy, PartialEq, Eq, Structural)]
pub enum FrameProtocol {
    Ipv4,
    Apr,
}

impl FrameProtocol {
    /// The value written on the wire.
    pub open spec fn code(self) -> u16 {
        match self {
            FrameProtocol::Ipv4 => 0x0800,
            FrameProtocol::Apr => 0x0806,
        }
    }

    /// The protocol with wire value `v`, if any.
    pub open spec fn from_code(v: int) -> Option<FrameProtocol> {
        if v == 0x0800 {
            Some(FrameProtocol::Ipv4)
        } else if v == 0x0806 {
            Some(FrameProtocol::Apr)
        } else {
            None
        }
    }

    pub fn value(self) -> (r: u16)
        ensures
            r == self.code(),
    {
        match self {
            FrameProtocol::Ipv4 => 0x0800,
            FrameProtocol::Apr => 0x0806,
        }
    }

    pub fn try_from(value: u16) -> (r: Option<FrameProtocol>)
        ensures
            r == FrameProtocol::from_code(value as int),
    {
        if value == 0x0800 {
            Some(FrameProtocol::Ipv4)
        } else if value == 0x0806 {
            Some(FrameProtocol::Apr)
        } else {
            None
        }
    }
}

/// A frame as values: source, destination, protocol and payload.
pub type FrameValue = (Seq<u8>, Seq<u8>, FrameProtocol, Seq<u8>);

/// An Ethernet-like frame.
#[derive(Debug, PartialEq, Eq, Clone)]
pub struct EthernetFrame {
    pub source: MacAddress,
    pub destin: MacAddress,
    pub protocol: FrameProtocol,
    pub data: Vec<u8>,
}

impl View for EthernetFrame {
    type V = FrameValue;

    open spec fn view(&self) -> FrameValue {
        (self.source@, self.destin@, self.protocol, self.data@)
    }
}

/// The wire form of a frame: source, destination, big-endian protocol, payload, four zero bytes.
pub open spec fn encode(f: FrameValue) -> Seq<u8> {
    f.0 + f.1 + be16(f.2.code()) + f.3 + seq![0u8, 0, 0, 0]
}

/// What reading `b` as a frame gives: too short for the fixed fields, an unknown
/// protocol, or the frame whose payload lies between the protocol and the trailer.
pub open spec fn decode(b: Seq<u8>) -> Result<FrameValue, ParseError> {
    if b.len() < 18 {
        Err(ParseError::MissingBytes)
    } else {
        let p = be16_value(b[12], b[13]);
        match FrameProtocol::from_code(p) {
            None => Err(ParseError::InvalidFieldValue { field: PROTOCOL_FIELD, value: p as usize }),
            Some(protocol) => Ok(
                (b.subrange(0, 6), b.subrange(6, 12), protocol, b.subrange(14, b.len() - 4)),
            ),
        }
    }
}

impl EthernetFrame {
    pub fn to_bytes(&self) -> (r: Vec<u8>)
        ensures
            r@ == encode(self@),
    {
        let mut buffer: Vec<u8> = Vec::new();
        write_bytes(&mut buffer, self.source.as_bytes());
        write_bytes(&mut buffer, self.destin.as_bytes());
        write_u16(&mut buffer, self.protocol.value());
        write_bytes(&mut buffer, self.data.as_slice());
        let trailer: [u8; ETHERNET_CRC_SIZE] = [0; ETHERNET_CRC_SIZE];
        write_bytes(&mut buffer, trailer.as_slice());
        assert(trailer@ =~= seq![0u8, 0, 0, 0]);
        buffer
    }

    /// Reads a frame from its wire form.
    pub fn from_raw_bytes(data: &[u8]) -> (r: Result<EthernetFrame, ParseError>)
        ensures
            match decode(data@) {
                Ok(v) => r matches Ok(f) && f@ == v,
                Err(e) => r == Err::<EthernetFrame, ParseError>(e),
            },
    {
        parse_ethernet_frame(data)
    }
}

/// Reads a frame from its wire form: the addresses, the protocol, then the payload
/// followed by a trailer of `ETHERNET_CRC_SIZE` bytes that is stripped unread.
pub fn parse_ethernet_frame(data: &[u8]) -> (r: Result<EthernetFrame, ParseError>)
    ensures
        match decode(data@) {
            Ok(v) => r matches Ok(f) && f@ == v,
            Err(e) => r == Err::<EthernetFrame, ParseError>(e),
        },
{
    let mut parser = Parser::build(data);
    let ghost b = data@;

    let src = parser.parse_chunk(ETHERNET_MAC_ADDR_SIZE)?;
    let dst = parser.parse_chunk(ETHERNET_MAC_ADDR_SIZE)?;
    assert(parser.rest() =~= b.skip(12));
    let protocol = parser.parse_u16()?;
    assert(parser.rest() =~= b.skip(14));
    assert(b.len() >= 14);

    let mut data_and_crc = parser.collect();
    if data_and_crc.len() < ETHERNET_CRC_SIZE {
        return Err(ParseError::MissingBytes);
    }
    let source = match MacAddress::build(src.as_slice()) {
        Ok(a) => a,
        Err(_) => { return Err(ParseError::MissingBytes); },
    };
    let destin = match MacAddress::build(dst.as_slice()) {
        Ok(a) => a,
        Err(_) => { return Err(ParseError::MissingBytes); },
    };
    let protocol = match FrameProtocol::try_from(protocol) {
        Some(p) => p,
        None => {
            return Err(ParseError::InvalidFieldValue { field: PROTOCOL_FIELD, value: protocol as usize });
        },
    };
    data_and_crc.truncate(data_and_crc.len() - ETHERNET_CRC_SIZE);
    assert(src@ =~= b.subrange(0, 6));
    assert(dst@ =~= b.subrange(6, 12));
    assert(data_and_crc@ =~= b.subrange(14, b.len() - 4));
    Ok(EthernetFrame { source, destin, protocol, data: data_and_crc })
}

/// Formatting six bytes and reading the text back gives the same six bytes.
pub proof fn lemma_mac_text_round_trip(b: Seq<u8>)
    requires
        b.len() == 6,
    ensures
        is_mac_text(mac_text(b)),
        text_bytes(mac_text(b)) == b,
{
    let s = mac_text(b);
    assert forall|n: nat| n < 16 implies #[trigger] hex_value(hex_char(n)) == Some(n) by {
        if n == 0 {} else if n == 1 {} else if n == 2 {} else if n == 3 {} else if n == 4 {}
        else if n == 5 {} else if n == 6 {} else if n == 7 {} else if n == 8 {} else if n == 9 {}
        else if n == 10 {} else if n == 11 {} else if n == 12 {} else if n == 13 {} else if n == 14 {}
        else {}
    }
    assert forall|j: int| 0 <= j < 17 implies if j % 3 == 2 {
        s[j] == ':'
    } else {
        hex_value(#[trigger] s[j]) is Some
    } by {
        if j % 3 != 2 {
            assert(hex_value(hex_char((b[j / 3] / 16) as nat)) is Some);
            assert(hex_value(hex_char((b[j / 3] % 16) as nat)) is Some);
        }
    }
    assert forall|g: int| 0 <= g < 6 implies #[trigger] text_bytes(s)[g] == b[g] by {
        assert((3 * g) % 3 == 0 && (3 * g) / 3 == g);
        assert((3 * g + 1) % 3 == 1 && (3 * g + 1) / 3 == g);
        assert(hex_value(s[3 * g]) == Some((b[g] / 16) as nat));
        assert(hex_value(s[3 * g + 1]) == Some((b[g] % 16) as nat));
    }
    assert(text_bytes(s) =~= b);
}

/// Decoding the wire form of a frame gives the frame back.
pub proof fn lemma_frame_round_trip(f: FrameValue)
    requires
        f.0.len() == 6,
        f.1.len() == 6,
    ensures
        decode(encode(f)) == Ok::<FrameValue, ParseError>(f),
{
    let b = encode(f);
    assert(b[12] == (f.2.code() / 256) as u8);
    assert(b[13] == (f.2.code() % 256) as u8);
    assert(be16_value(b[12], b[13]) == f.2.code() as int);
    assert(b.subrange(0, 6) =~= f.0);
    assert(b.subrange(6, 12) =~= f.1);
    assert(b.subrange(14, b.len() - 4) =~= f.3);
}

} // verus!

verus! {

/// The address as a 48-bit number, first byte most significant.
pub open spec fn mac_key(b: Seq<u8>) -> u64 {
    (b[0] as int * 0x100_0000_0000 + b[1] as int * 0x1_0000_0000 + b[2] as int * 0x100_0000
        + b[3] as int * 0x1_0000 + b[4] as int * 0x100 + b[5] as int) as u64
}

impl MacAddress {
    /// The address as a 48-bit number, used to key tables by address.
    pub fn key(&self) -> (r: u64)
        ensures
            r == mac_key(self@),
    {
        let b = &self.0;
        (b[0] as u64) * 0x100_0000_0000 + (b[1] as u64) * 0x1_0000_0000 + (b[2] as u64) * 0x100_0000
            + (b[3] as u64) * 0x1_0000 + (b[4] as u64) * 0x100 + (b[5] as u64)
    }
}

} // verus!

verus! {

/// Distinct addresses have distinct keys.
pub proof fn lemma_mac_key_injective(a: Seq<u8>, b: Seq<u8>)
    requires
        a.len() == 6,
        b.len() == 6,
        mac_key(a) == mac_key(b),
    ensures
        a == b,
{
    assert(a[0] == b[0] && a[1] == b[1] && a[2] == b[2] && a[3] == b[3] && a[4] == b[4] && a[5] == b[5]);
    assert(a =~= b);
}

} // verus!
