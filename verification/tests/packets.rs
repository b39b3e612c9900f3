use qualisys::packets::{Unmarshal, UnmarshalError, Q3D};

#[test]
fn q3d_records() {
    let q = Q3D::from_bits(1.0f64.to_bits(), 2.0f64.to_bits(), 3.0f64.to_bits());
    let (x, y, z) = q.position().bits();
    assert_eq!((f64::from_bits(x), f64::from_bits(y), f64::from_bits(z)), (1.0, 2.0, 3.0));
    assert_eq!(Q3D::size(), 4);
    assert_eq!(Q3D::unmarshal(&[0u8; 4]), Err(UnmarshalError::new()));
    assert_eq!(Q3D::unmarshal(&[]), Err(UnmarshalError::new()));
}

use qualisys::simple::{connect_address, welcome_packet, PacketType};

fn reply(text: &[u8], kind: u32) -> Vec<u8> {
    let mut v = Vec::new();
    v.extend_from_slice(&((8 + text.len()) as u32).to_le_bytes());
    v.extend_from_slice(&kind.to_le_bytes());
    v.extend_from_slice(text);
    v
}

#[test]
fn the_welcome_reply_becomes_a_packet() {
    let raw = reply(b"QTM RT Interface connected\0", 1);
    let p = welcome_packet(&raw).expect("welcome");
    assert_eq!(p.size(), 35);
    assert_eq!(p.packet_type(), PacketType::Command);
    assert_eq!(p.data(), &b"QTM RT Interface connected\0".to_vec());
    assert!(welcome_packet(&reply(b"QTM RT Interface connected", 1)).is_some());
    assert!(welcome_packet(&reply(b"QTM RT Interface connected \0", 1)).is_none());
    assert!(welcome_packet(&reply(b"Version set to 1.28\0", 1)).is_none());
}

#[test]
fn packet_types_by_code() {
    assert_eq!(PacketType::from(2), PacketType::XML);
    assert_eq!(PacketType::from(8), PacketType::QTMFile);
    assert_eq!(PacketType::from(9), PacketType::Empty);
    assert_eq!(PacketType::from(1000), PacketType::Empty);
    assert_eq!(PacketType::C3DFile.to_string(), "C3DFile");
    assert_eq!(PacketType::Empty.to_string(), "None");
    assert_eq!(connect_address("192.168.0.10"), "192.168.0.10:22223");
}
