use qualisys::discover::{add_server, discovery_request, parse_u32, take_response, Server};
use qualisys::packet::PACKET_HEADER_SIZE;
use qualisys::{Error, PacketType};

fn response(info: &str, base_port: u16) -> Vec<u8> {
    let mut v = vec![0u8; PACKET_HEADER_SIZE];
    v.extend_from_slice(info.as_bytes());
    v.extend_from_slice(&base_port.to_be_bytes());
    let len = v.len() as u32;
    v[0..4].copy_from_slice(&len.to_le_bytes());
    v[4..8].copy_from_slice(&PacketType::Command.as_u32().to_le_bytes());
    v
}

#[test]
fn parses_a_response() {
    let raw = response("TestHost, QTM 2025.1 32300, 1234 cameras", 22222);
    let server = Server::parse("10.0.0.5", &raw).unwrap();
    assert_eq!(server.hostname, "TestHost");
    assert_eq!(server.qtm_version, "QTM 2025.1 32300");
    assert_eq!(server.camera_count, 1234);
    assert_eq!(server.base_port, 22222);
    assert_eq!(server.address, "10.0.0.5");
}

#[test]
fn rejects_a_short_response() {
    assert!(Server::parse("10.0.0.5", &[0u8; 4]).is_err());
}

#[test]
fn rejects_a_malformed_information_field() {
    let raw = response("no commas here", 22222);
    assert!(Server::parse("10.0.0.5", &raw).is_err());
}

#[test]
fn discovery_request_has_the_expected_layout() {
    let request = discovery_request(4545);
    assert_eq!(
        u32::from_le_bytes([request[0], request[1], request[2], request[3]]),
        10
    );
    assert_eq!(
        u32::from_le_bytes([request[4], request[5], request[6], request[7]]),
        7
    );
    assert_eq!(u16::from_be_bytes([request[8], request[9]]), 4545);
}

#[test]
fn a_response_of_ten_bytes_is_too_short() {
    match Server::parse("10.0.0.5", &[0u8; 10]) {
        Err(Error::MalformedFrame(m)) => {
            assert_eq!(m, "discovery response is 10 bytes, need at least 11")
        }
        other => panic!("got {other:?}"),
    }
    assert!(Server::parse("10.0.0.5", &[0u8; 11]).is_err());
}

#[test]
fn the_part_count_is_reported() {
    match Server::parse("10.0.0.5", &response("a, b, c, d", 1)) {
        Err(Error::MalformedFrame(m)) => assert_eq!(
            m,
            "discovery information field has 4 comma separated parts, expected 3"
        ),
        other => panic!("got {other:?}"),
    }
}

#[test]
fn trailing_nuls_and_spaces_are_ignored() {
    let raw = response("  Lab PC ,QTM 2024.2,  8 cameras \0\0", 22222);
    let server = Server::parse("192.168.1.2", &raw).unwrap();
    assert_eq!(server.hostname, "Lab PC");
    assert_eq!(server.qtm_version, "QTM 2024.2");
    assert_eq!(server.camera_count, 8);
}

#[test]
fn a_camera_count_that_is_not_a_number_is_zero() {
    let server = Server::parse("h", &response("Host, QTM, many cameras", 1)).unwrap();
    assert_eq!(server.camera_count, 0);
    let server = Server::parse("h", &response("Host, QTM, ", 1)).unwrap();
    assert_eq!(server.camera_count, 0);
    let server = Server::parse("h", &response("Host, QTM, 99999999999 cameras", 1)).unwrap();
    assert_eq!(server.camera_count, 0);
    let server = Server::parse("h", &response("Host, QTM, +12", 1)).unwrap();
    assert_eq!(server.camera_count, 12);
}

#[test]
fn a_non_utf8_information_field_is_a_utf8_error() {
    let mut raw = response("Host, QTM, 1", 1);
    raw[9] = 0xFF;
    assert!(matches!(Server::parse("h", &raw), Err(Error::Utf8(_))));
}

#[test]
fn parses_u32_like_std() {
    let cases = ["0", "42", "+7", "4294967295", "4294967296", "", "+", "-1", "12a", "007"];
    for text in cases {
        let chars: Vec<char> = text.chars().collect();
        assert_eq!(parse_u32(&chars), text.parse::<u32>().ok(), "{text:?}");
    }
}

#[test]
fn a_server_renders_as_text() {
    let raw = response("TestHost, QTM 2025.1 32300, 1234 cameras", 22222);
    let server = Server::parse("10.0.0.5", &raw).unwrap();
    assert_eq!(
        server.to_string(),
        "TestHost (QTM 2025.1 32300) at 10.0.0.5:22222 with 1234 cameras"
    );
}

#[test]
fn a_server_answering_twice_is_listed_once() {
    let raw = response("TestHost, QTM 2025.1 32300, 1234 cameras", 22222);
    let first = Server::parse("10.0.0.5", &raw).unwrap();
    let again = Server::parse("10.0.0.5", &raw).unwrap();
    let other = Server::parse("10.0.0.6", &raw).unwrap();
    let mut servers = Vec::new();
    add_server(&mut servers, first.clone());
    add_server(&mut servers, again);
    add_server(&mut servers, other.clone());
    assert_eq!(servers, vec![first, other]);
}

#[test]
fn malformed_responses_are_skipped() {
    let good = response("TestHost, QTM 2025.1 32300, 1234 cameras", 22222);
    let mut servers = Vec::new();
    assert!(take_response(&mut servers, "10.0.0.5", &good).is_ok());
    assert!(matches!(
        take_response(&mut servers, "10.0.0.9", &response("no commas here", 1)),
        Err(Error::MalformedFrame(_))
    ));
    assert!(take_response(&mut servers, "10.0.0.5", &good).is_ok());
    assert!(take_response(&mut servers, "10.0.0.6", &good).is_ok());
    let addresses: Vec<&str> = servers.iter().map(|s| s.address.as_str()).collect();
    assert_eq!(addresses, vec!["10.0.0.5", "10.0.0.6"]);
}

#[test]
fn a_run_of_responses_lists_each_server_once_in_arrival_order() {
    let a = response("HostA, QTM 2025.1 32300, 4 cameras", 22222);
    let b = response("HostB, QTM 2024.2 30000, 8 cameras", 22223);
    let bad = response("garbage", 1);
    let mut servers = Vec::new();
    let run: [(&str, &Vec<u8>); 5] =
        [("10.0.0.2", &b), ("10.0.0.9", &bad), ("10.0.0.1", &a), ("10.0.0.2", &b), ("10.0.0.1", &a)];
    for (address, data) in run {
        let _ = take_response(&mut servers, address, data);
    }
    let hosts: Vec<(&str, &str, u32, u16)> = servers
        .iter()
        .map(|s| (s.address.as_str(), s.hostname.as_str(), s.camera_count, s.base_port))
        .collect();
    assert_eq!(hosts, vec![("10.0.0.2", "HostB", 8, 22223), ("10.0.0.1", "HostA", 4, 22222)]);
}
