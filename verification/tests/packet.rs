use qualisys::packet::{decode_string, encode_string_packet, PACKET_HEADER_SIZE};
use qualisys::{ByteOrder, Error, EventType, Packet, PacketType};

fn encode(packet_type: PacketType, payload: &[u8]) -> Vec<u8> {
    let size = PACKET_HEADER_SIZE + payload.len();
    let mut v = Vec::with_capacity(size);
    v.extend_from_slice(&(size as u32).to_le_bytes());
    v.extend_from_slice(&packet_type.as_u32().to_le_bytes());
    v.extend_from_slice(payload);
    v
}

#[test]
fn decodes_a_command_response() {
    let raw = encode(PacketType::Command, b"QTM RT Interface connected\0");
    let p = Packet::decode(&raw, ByteOrder::Little).unwrap();
    assert_eq!(p, Packet::Command("QTM RT Interface connected".into()));
}

#[test]
fn event_packet_without_payload_is_an_error() {
    let raw = encode(PacketType::Event, b"");
    assert!(Packet::decode(&raw, ByteOrder::Little).is_err());
}

#[test]
fn file_packet_keeps_every_byte() {
    // The payload of a file transfer is the file itself; treating the first
    // bytes as a nested header would corrupt every capture.
    let content = b"C3D\x00\x01\x02\x03\x04and the rest";
    let raw = encode(PacketType::C3dFile, content);
    match Packet::decode(&raw, ByteOrder::Little).unwrap() {
        Packet::C3dFile(bytes) => assert_eq!(bytes, content.to_vec()),
        other => panic!("got {other:?}"),
    }
}

#[test]
fn header_only_buffer_is_rejected() {
    assert!(Packet::decode(&[0u8; 4], ByteOrder::Little).is_err());
}

#[test]
fn non_utf8_command_is_an_error_not_a_panic() {
    let raw = encode(PacketType::Command, &[0xFF, 0xFE, 0x00]);
    assert!(Packet::decode(&raw, ByteOrder::Little).is_err());
}

#[test]
fn a_short_buffer_reports_its_length() {
    match Packet::decode(&[0u8; 5], ByteOrder::Little) {
        Err(Error::InvalidPacketSize(5)) => {}
        other => panic!("got {other:?}"),
    }
}

#[test]
fn non_utf8_text_is_a_utf8_error() {
    let raw = encode(PacketType::Xml, &[b'<', 0xC3, 0x28, 0x00]);
    assert!(matches!(Packet::decode(&raw, ByteOrder::Little), Err(Error::Utf8(_))));
}

#[test]
fn events_decode_by_their_code() {
    let raw = encode(PacketType::Event, &[10]);
    assert_eq!(
        Packet::decode(&raw, ByteOrder::Little).unwrap(),
        Packet::Event(EventType::WaitingForTrigger)
    );
    let raw = encode(PacketType::Event, &[200]);
    assert_eq!(
        Packet::decode(&raw, ByteOrder::Little).unwrap(),
        Packet::Event(EventType::Unknown(200))
    );
    assert_eq!(EventType::from(11u8), EventType::CameraSettingsChanged);
    assert_eq!(EventType::CaptureStarted.to_string(), "CaptureStarted");
    assert_eq!(EventType::Unknown(42).to_string(), "Unknown(42)");
    assert_eq!(EventType::NoEvent.to_string(), "None");
}

#[test]
fn unknown_packet_types_decode_as_empty() {
    let raw = encode(PacketType::Command, b"x\0");
    let mut bytes = raw.clone();
    bytes[4] = 77;
    assert_eq!(Packet::decode(&bytes, ByteOrder::Little).unwrap(), Packet::Empty);
    let raw = encode(PacketType::NoMoreData, b"");
    assert_eq!(Packet::decode(&raw, ByteOrder::Little).unwrap(), Packet::NoMoreData);
}

#[test]
fn big_endian_headers_are_read_big_endian() {
    let mut raw = Vec::new();
    raw.extend_from_slice(&11u32.to_be_bytes());
    raw.extend_from_slice(&PacketType::Event.as_u32().to_be_bytes());
    raw.extend_from_slice(&[3, 0, 0]);
    assert_eq!(
        Packet::decode(&raw, ByteOrder::Big).unwrap(),
        Packet::Event(EventType::CaptureStarted)
    );
}

#[test]
fn string_packets_frame_and_decode_back() {
    for order in [ByteOrder::Little, ByteOrder::Big] {
        let bytes = encode_string_packet("GetState", PacketType::Command, order);
        assert_eq!(bytes.len(), 8 + 8 + 1);
        assert_eq!(order.u32([bytes[0], bytes[1], bytes[2], bytes[3]]), 17);
        assert_eq!(order.u32([bytes[4], bytes[5], bytes[6], bytes[7]]), 1);
        assert_eq!(bytes[16], 0);
        assert_eq!(
            Packet::decode(&bytes, order).unwrap(),
            Packet::Command("GetState".to_string())
        );
    }
    let xml = encode_string_packet("<QTM_Settings/>", PacketType::Xml, ByteOrder::Little);
    assert_eq!(
        Packet::decode(&xml, ByteOrder::Little).unwrap(),
        Packet::Xml("<QTM_Settings/>".to_string())
    );
}

#[test]
fn string_fields_end_at_the_first_nul() {
    assert_eq!(decode_string(b"abc\0def").unwrap(), "abc");
    assert_eq!(decode_string(b"no terminator").unwrap(), "no terminator");
    assert_eq!(decode_string(b"").unwrap(), "");
    assert!(matches!(decode_string(&[0xFF, 0x00]), Err(Error::Utf8(_))));
}

#[test]
fn packet_kinds_have_short_names() {
    assert_eq!(Packet::NoMoreData.kind_name(), "no-more-data");
    assert_eq!(Packet::C3dFile(vec![]).kind_name(), "c3d-file");
    assert_eq!(Packet::Empty.kind_name(), "none");
    assert!(Packet::NoMoreData.is_end_of_data());
    assert!(!Packet::Empty.is_end_of_data());
    assert!(Packet::Command(String::new()).data().is_none());
}

#[test]
fn packet_type_codes_round_trip() {
    for code in 0..10u32 {
        let t = PacketType::try_from(code).unwrap();
        assert_eq!(t.as_u32(), code);
    }
    assert!(PacketType::try_from(10).is_err());
    assert_eq!(PacketType::Discover.as_u32(), 7);
}
