use ethsim::ethernet::{
    parse_ethernet_frame, EthernetFrame, FrameProtocol, MacAddress, ETHERNET_MAC_ADDR_SIZE,
};
use ethsim::protocols::{write_bytes, write_u16, write_u32, ParseError};

struct TestEntry {
    address: &'static [u8],
    expected_fmt: &'static str,
}

const TEST_ENTRIES: &[TestEntry] = &[
    TestEntry {
        address: &[0; 6],
        expected_fmt: "00:00:00:00:00:00",
    },
    TestEntry {
        address: &[255; 6],
        expected_fmt: "FF:FF:FF:FF:FF:FF",
    },
    TestEntry {
        address: &[16; 6],
        expected_fmt: "10:10:10:10:10:10",
    },
    TestEntry {
        address: &[255, 0, 32, 11, 0, 254],
        expected_fmt: "FF:00:20:0B:00:FE",
    },
];

#[test]
fn creation() {
    let invalids = [&[0][..], &[0; 10], &[1, 2, 3]];
    for invalid in invalids {
        assert!(MacAddress::build(invalid).is_err())
    }
}

#[test]
fn mac_address_format() {
    for entry in TEST_ENTRIES {
        let address = MacAddress::build(entry.address);
        assert!(address.is_ok());

        let address = address.unwrap();
        assert_eq!(address.to_string(), entry.expected_fmt)
    }
}

#[test]
fn from_string() {
    for entry in TEST_ENTRIES {
        let address = MacAddress::from(entry.expected_fmt);
        assert!(address.is_ok(), "Failed to parse '{}'", entry.expected_fmt);

        let address = address.unwrap();
        let expected = MacAddress::build(entry.address).unwrap();

        assert_eq!(expected, address);
    }
}

#[test]
fn marshall_and_unmarshall() {
    let original = EthernetFrame {
        source: MacAddress::new([10; ETHERNET_MAC_ADDR_SIZE]),
        destin: MacAddress::new([255; ETHERNET_MAC_ADDR_SIZE]),
        protocol: FrameProtocol::Ipv4,
        data: vec![200; 512],
    };

    let bytes = original.to_bytes();
    let frame = parse_ethernet_frame(bytes.as_ref());

    assert!(frame.is_ok());
    assert_eq!(original, frame.unwrap());
}

#[test]
fn missing_crc() {
    let mut buffer = Vec::new();
    write_bytes(&mut buffer, &[10; ETHERNET_MAC_ADDR_SIZE]);
    write_bytes(&mut buffer, &[11; ETHERNET_MAC_ADDR_SIZE]);
    write_u16(&mut buffer, FrameProtocol::Apr.value());
    write_bytes(&mut buffer, &[0; 2]);

    assert_eq!(
        Err(ParseError::MissingBytes),
        parse_ethernet_frame(buffer.as_ref())
    );
}

#[test]
fn empty_frame() {
    let buffer: Vec<u8> = Vec::new();
    assert_eq!(
        Err(ParseError::MissingBytes),
        parse_ethernet_frame(buffer.as_ref())
    );
}

#[test]
fn invalid_protocol() {
    let mut buffer = Vec::new();
    write_bytes(&mut buffer, &[10; ETHERNET_MAC_ADDR_SIZE]);
    write_bytes(&mut buffer, &[11; ETHERNET_MAC_ADDR_SIZE]);
    write_u16(&mut buffer, 0);
    write_bytes(&mut buffer, &[0; 10]);

    assert_eq!(
        Err(ParseError::InvalidFieldValue {
            field: "protocol",
            value: 0
        }),
        parse_ethernet_frame(buffer.as_ref())
    );
}

#[test]
fn short_buffers_are_missing_bytes() {
    assert_eq!(Err(ParseError::MissingBytes), parse_ethernet_frame(&[]));
    assert_eq!(Err(ParseError::MissingBytes), parse_ethernet_frame(&[1; 10]));
    let mut buffer = Vec::new();
    write_bytes(&mut buffer, &[1; 12]);
    write_u16(&mut buffer, 0x0800);
    assert_eq!(buffer.len(), 14);
    assert_eq!(Err(ParseError::MissingBytes), parse_ethernet_frame(&buffer));
    // a short buffer is reported as missing bytes even when its protocol is unknown
    let mut buffer = Vec::new();
    write_bytes(&mut buffer, &[1; 12]);
    write_u16(&mut buffer, 0);
    write_bytes(&mut buffer, &[0; 3]);
    assert_eq!(Err(ParseError::MissingBytes), parse_ethernet_frame(&buffer));
}

#[test]
fn encoding_layout() {
    let frame = EthernetFrame {
        source: MacAddress::new([1, 2, 3, 4, 5, 6]),
        destin: MacAddress::new([7, 8, 9, 10, 11, 12]),
        protocol: FrameProtocol::Apr,
        data: vec![0xAA, 0xBB],
    };
    let bytes = frame.to_bytes();
    assert_eq!(
        bytes,
        vec![1, 2, 3, 4, 5, 6, 7, 8, 9, 10, 11, 12, 0x08, 0x06, 0xAA, 0xBB, 0, 0, 0, 0]
    );
    assert_eq!(bytes.len(), 18 + 2);
}

#[test]
fn empty_payload_round_trip() {
    let frame = EthernetFrame {
        source: MacAddress::new([1; 6]),
        destin: MacAddress::new([2; 6]),
        protocol: FrameProtocol::Ipv4,
        data: Vec::new(),
    };
    let bytes = frame.to_bytes();
    assert_eq!(bytes.len(), 18);
    assert_eq!(EthernetFrame::from_raw_bytes(&bytes), Ok(frame));
}

#[test]
fn trailer_is_stripped_unread() {
    let mut buffer = Vec::new();
    write_bytes(&mut buffer, &[1; 6]);
    write_bytes(&mut buffer, &[2; 6]);
    write_u16(&mut buffer, 0x0806);
    write_bytes(&mut buffer, &[5, 6, 7]);
    write_u32(&mut buffer, 0xDEADBEEF);
    let frame = parse_ethernet_frame(&buffer).unwrap();
    assert_eq!(frame.protocol, FrameProtocol::Apr);
    assert_eq!(frame.data, vec![5, 6, 7]);
    assert_eq!(frame.source, MacAddress::new([1; 6]));
    assert_eq!(frame.destin, MacAddress::new([2; 6]));
}

#[test]
fn write_u32_is_big_endian() {
    let mut buffer = vec![9];
    write_u32(&mut buffer, 0x0102_0304);
    assert_eq!(buffer, vec![9, 1, 2, 3, 4]);
}

#[test]
fn protocol_values() {
    assert_eq!(FrameProtocol::Ipv4.value(), 0x0800);
    assert_eq!(FrameProtocol::Apr.value(), 0x0806);
    assert_eq!(FrameProtocol::try_from(0x0806), Some(FrameProtocol::Apr));
    assert_eq!(FrameProtocol::try_from(0x0801), None);
}

#[test]
fn build_round_trips_through_text() {
    let bytes = [0x0A, 0xBC, 0xDE, 0xF0, 0x12, 0x9F];
    let address = MacAddress::build(&bytes).unwrap();
    let text = address.to_string();
    assert_eq!(text, "0A:BC:DE:F0:12:9F");
    assert_eq!(MacAddress::from(&text).unwrap(), address);
    assert_eq!(address.as_bytes(), &bytes[..]);
}

#[test]
fn malformed_text_is_rejected() {
    assert!(MacAddress::from("").is_err());
    assert!(MacAddress::from("00:00:00:00:00").is_err());
    assert!(MacAddress::from("00:00:00:00:00:0G").is_err());
    assert!(MacAddress::from("00-00-00-00-00-00").is_err());
    assert!(MacAddress::from("0:0FF:00:00:00:00").is_err());
    assert!(MacAddress::from("00:00:00:00:00:00:").is_err());
    assert!(MacAddress::from("ÄÄ:00:00:00:00:0").is_err());
}

#[test]
fn lower_case_text_is_accepted() {
    assert_eq!(
        MacAddress::from("ab:cd:ef:00:11:22").unwrap(),
        MacAddress::new([0xAB, 0xCD, 0xEF, 0x00, 0x11, 0x22])
    );
}

#[test]
fn broadcast_address() {
    assert_eq!(MacAddress::broadcast(), MacAddress::new([0xFF; 6]));
    assert_eq!(MacAddress::broadcast().key(), 0xFFFF_FFFF_FFFF);
    assert_eq!(MacAddress::new([1, 2, 3, 4, 5, 6]).key(), 0x0102_0304_0506);
}
