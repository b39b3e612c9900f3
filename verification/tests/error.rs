use qualisys::Error;

#[test]
fn messages() {
    assert_eq!(Error::NotConnected.to_string(), "not connected");
    assert_eq!(Error::Timeout.to_string(), "timed out waiting for a response");
    assert_eq!(
        Error::Truncated { expected: 40, received: 8 }.to_string(),
        "packet truncated: expected 40 bytes, received 8; the stream is desynchronised and the connection must be reopened"
    );
    assert_eq!(
        Error::ShortPacket { needed: 4, offset: 10, available: 2 }.to_string(),
        "short packet: needed 4 bytes at offset 10, 2 available"
    );
    assert_eq!(
        Error::InvalidPacketSize(3).to_string(),
        "invalid packet size 3, must be at least 8"
    );
    assert_eq!(
        Error::PacketTooLarge { size: 2000, limit: 1024 }.to_string(),
        "packet size 2000 exceeds the configured limit 1024"
    );
    assert_eq!(
        Error::VersionNotSupported { tried: vec![(1, 28), (1, 27)] }.to_string(),
        "no mutually supported protocol version; tried 1.28, 1.27"
    );
    assert_eq!(
        Error::UnexpectedResponse {
            command: "Stop".into(),
            got: "say \"no\"".into(),
            expected: vec!["Stopping measurement".into(), "b".into()],
        }
        .to_string(),
        "command \"Stop\" returned \"say \\\"no\\\"\", expected one of [\"Stopping measurement\", \"b\"]"
    );
    assert_eq!(
        Error::UnexpectedPacket { expected: "command", got: "xml" }.to_string(),
        "expected a command packet, got xml"
    );
    assert_eq!(Error::Qtm("busy".into()).to_string(), "qtm returned an error: busy");
    assert_eq!(
        Error::MalformedFrame("bad".into()).to_string(),
        "malformed data frame: bad"
    );
    assert_eq!(
        Error::InvalidArgument("x".into()).to_string(),
        "invalid argument: x"
    );
}

#[test]
fn wrapped_errors_keep_their_text() {
    let io = Error::from(std::io::Error::new(std::io::ErrorKind::Other, "boom"));
    assert_eq!(io.to_string(), "io error: boom");
    let bytes = vec![0xFFu8];
    let utf8 = Error::from(std::str::from_utf8(&bytes).unwrap_err());
    assert!(utf8.to_string().starts_with("invalid utf-8 in response: "));
    assert!(utf8.to_string().len() > "invalid utf-8 in response: ".len());
}

#[test]
fn timeouts() {
    assert!(Error::Timeout.is_timeout());
    assert!(Error::from(std::io::Error::new(std::io::ErrorKind::TimedOut, "t")).is_timeout());
    assert!(Error::from(std::io::Error::new(std::io::ErrorKind::WouldBlock, "t")).is_timeout());
    assert!(!Error::from(std::io::Error::new(std::io::ErrorKind::UnexpectedEof, "t")).is_timeout());
    assert!(!Error::NotConnected.is_timeout());
}

#[test]
fn socket_errors_time_out_only_for_timeout_kinds() {
    let io = |k| Error::from(std::io::Error::new(k, "x"));
    assert!(io(std::io::ErrorKind::TimedOut).is_timeout());
    assert!(io(std::io::ErrorKind::WouldBlock).is_timeout());
    assert!(!io(std::io::ErrorKind::PermissionDenied).is_timeout());
    assert!(!io(std::io::ErrorKind::ConnectionReset).is_timeout());
    assert!(!Error::Truncated { expected: 40, received: 8 }.is_timeout());
    assert!(!Error::Qtm("x".to_string()).is_timeout());
}

#[test]
fn a_utf8_error_message_carries_its_detail() {
    let bytes = [0x61u8, 0xFF];
    let e = std::str::from_utf8(&bytes).unwrap_err();
    assert_eq!(
        Error::from(e).to_string(),
        "invalid utf-8 in response: invalid utf-8 sequence of 1 bytes from index 1"
    );
}
