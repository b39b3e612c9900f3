//! Connection scenarios against a scripted QTM, driving the session, the
//! version negotiation and the command helpers the way a client does over a
//! socket.

use qualisys::commands::{
    command_reply, parameters_command, parameters_step, skipped_while_waiting,
    stream_frames_command, stream_frames_udp_command, Request, Wait,
};
use qualisys::error::IoKind;
use qualisys::protocol::{
    body_read_error, body_read_failure, header_read_error, header_read_failure, state_step,
    welcome_outcome,
};
use std::io::ErrorKind;
use qualisys::{
    Builder, ComponentOptions, ComponentType, Config, Error, EventType, Negotiation, Packet,
    PacketType, Parameter, Session, StreamRate,
};

/// Builds a framed packet.
fn encode(packet_type: PacketType, payload: &[u8]) -> Vec<u8> {
    let size = 8 + payload.len();
    let mut v = Vec::with_capacity(size);
    v.extend_from_slice(&(size as u32).to_le_bytes());
    v.extend_from_slice(&packet_type.as_u32().to_le_bytes());
    v.extend_from_slice(payload);
    v
}

fn command(s: &str) -> Vec<u8> {
    let mut payload = s.as_bytes().to_vec();
    payload.push(0);
    encode(PacketType::Command, &payload)
}

fn error_packet(s: &str) -> Vec<u8> {
    let mut payload = s.as_bytes().to_vec();
    payload.push(0);
    encode(PacketType::Error, &payload)
}

fn xml(s: &str) -> Vec<u8> {
    let mut payload = s.as_bytes().to_vec();
    payload.push(0);
    encode(PacketType::Xml, &payload)
}

fn event(e: u8) -> Vec<u8> {
    encode(PacketType::Event, &[e])
}

fn timed_out() -> std::io::Error {
    std::io::Error::new(std::io::ErrorKind::TimedOut, "timed out")
}

/// A connection to a scripted QTM: every command the client sends is
/// recorded and answered by `handler`, and replies are read back packet by
/// packet through the session.
struct Link {
    session: Session,
    handler: Box<dyn Fn(&str) -> Option<Vec<u8>>>,
    sent: Vec<String>,
    inbox: Vec<u8>,
}

impl Link {
    fn send(&mut self, text: &str) {
        self.sent.push(text.to_string());
        if let Some(reply) = (self.handler)(text) {
            self.inbox.extend_from_slice(&reply);
        }
    }

    /// Reads one packet the way a socket read does: an empty inbox times
    /// out on the header, a short body times out mid-packet.
    fn receive(&mut self) -> Result<Packet, Error> {
        if self.inbox.len() < 8 {
            return header_read_failure(IoKind::TimedOut, timed_out());
        }
        let size = self.session.packet_size(&self.inbox[..8])?;
        if self.inbox.len() < size {
            self.inbox.clear();
            return Err(body_read_failure(IoKind::TimedOut, timed_out(), size));
        }
        let packet: Vec<u8> = self.inbox.drain(..size).collect();
        self.session.accept(&packet)
    }

    fn send_command(&mut self, text: &str) -> Result<String, Error> {
        self.send(text);
        loop {
            let packet = self.receive()?;
            if packet.is_end_of_data() {
                return Err(Error::Timeout);
            }
            if skipped_while_waiting(&packet) {
                continue;
            }
            return command_reply(packet);
        }
    }

    fn expect(&mut self, request: Request) -> Result<(), Error> {
        let response = self.send_command(&request.text())?;
        request.check(&response)
    }

    fn state(&mut self) -> Result<EventType, Error> {
        let (major, minor) = self.session.version();
        self.send(qualisys::commands::state_command(major, minor));
        loop {
            let packet = self.receive()?;
            if packet.is_end_of_data() {
                return Err(Error::Timeout);
            }
            if let Some(e) = state_step(&packet) {
                return Ok(e);
            }
        }
    }

    fn get_parameters(&mut self, parameters: &[Parameter], global: bool) -> Result<String, Error> {
        self.send(&parameters_command(parameters, global));
        loop {
            let packet = self.receive()?;
            if packet.is_end_of_data() {
                return Err(Error::Timeout);
            }
            match parameters_step(packet) {
                Wait::Continue => continue,
                Wait::Done(result) => return result,
            }
        }
    }
}

/// Runs the handshake: the welcome message, version negotiation, and a
/// first state request once a version is accepted.
fn handshake(link: &mut Link) -> Result<(), Error> {
    let first = link.receive()?;
    welcome_outcome(first)?;
    let mut negotiation = Negotiation::new(&link.session);
    while let Some(text) = negotiation.next_command() {
        let reply = link.send_command(&text);
        if let Some((major, minor)) = negotiation.on_reply(reply) {
            link.session.set_negotiated_version(major, minor);
            let _ = link.state();
            return Ok(());
        }
    }
    Err(negotiation.into_error())
}

fn open<F>(config: Config, handler: F) -> (Link, Result<(), Error>)
where
    F: Fn(&str) -> Option<Vec<u8>> + 'static,
{
    let mut link = Link {
        session: Session::new(config),
        handler: Box::new(handler),
        sent: Vec::new(),
        inbox: command("QTM RT Interface connected"),
    };
    let result = handshake(&mut link);
    (link, result)
}

fn connect_with<F>(config: Config, handler: F) -> Result<Link, Error>
where
    F: Fn(&str) -> Option<Vec<u8>> + 'static,
{
    let (link, result) = open(config, handler);
    result.map(|()| link)
}

fn connect<F>(handler: F) -> Result<Link, Error>
where
    F: Fn(&str) -> Option<Vec<u8>> + 'static,
{
    connect_with(Config::default(), handler)
}

/// A handler that accepts exactly one protocol version, mimicking an older QTM.
fn accept_version(major: u32, minor: u32) -> impl Fn(&str) -> Option<Vec<u8>> + 'static {
    let wanted = format!("Version {major}.{minor}");
    move |cmd: &str| {
        if cmd == wanted {
            Some(command(&format!("Version set to {major}.{minor}")))
        } else if cmd.starts_with("Version ") {
            Some(error_packet("Version not supported"))
        } else if cmd == "GetState" {
            Some(event(1))
        } else {
            None
        }
    }
}

#[test]
fn negotiates_down_to_an_older_version() {
    // QTM only speaks 1.25. The client should walk down from its 1.28 default
    // and settle there.
    let rt = connect(accept_version(1, 25)).expect("connect");

    assert_eq!(rt.session.version(), (1, 25));
    let commands = &rt.sent;
    assert_eq!(
        commands.first().map(String::as_str),
        Some("Version 1.28"),
        "the newest version should be tried first, got {commands:?}"
    );
}

#[test]
fn stops_at_the_newest_accepted_version() {
    let rt = connect(accept_version(1, 28)).expect("connect");

    assert_eq!(rt.session.version(), qualisys::DEFAULT_VERSION);
    assert!(rt.sent.len() <= 2, "should stop after the first version is accepted");
}

#[test]
fn fails_cleanly_against_a_too_old_qtm() {
    // Below the supported floor every version in the ladder is rejected.
    let result = connect(accept_version(1, 15));

    match result {
        Err(Error::VersionNotSupported { tried }) => {
            assert!(tried.contains(&(1, 28)));
            assert!(tried.contains(&(1, 22)));
            assert!(
                !tried.contains(&(1, 21)),
                "should not negotiate below the documented floor"
            );
        }
        Err(other) => panic!("expected VersionNotSupported, got {other:?}"),
        Ok(_) => panic!("expected VersionNotSupported, got a connection"),
    }
}

#[test]
fn version_negotiation_can_be_disabled() {
    let builder = Builder::default().version(1, 28).without_version_negotiation();
    let (link, result) = open(*builder.config(), accept_version(1, 25));

    assert!(result.is_err());
    assert_eq!(link.sent.len(), 1, "exactly one version should be attempted");
}

#[test]
fn parameters_element_name_tracks_the_negotiated_version() {
    let rt = connect(accept_version(1, 24)).expect("connect");

    assert_eq!(rt.session.parameters_element_name(), "QTM_Parameters_Ver_1.24");
    let wrapped = "<QTM_Parameters_Ver_1.24><The_6D/></QTM_Parameters_Ver_1.24>";
    assert_eq!(rt.session.strip_parameters_element(wrapped), "<The_6D/>");
}

#[test]
fn a_truncated_body_is_reported_as_such() {
    // A header promising more data than ever arrives must be an error. Treating
    // it as "no more data" would leave the partial body queued to be misread as
    // the next packet header.
    let mut rt = connect(accept_version(1, 28)).expect("connect");
    let mut truncated = command("a response that never fully arrives");
    truncated.truncate(12);
    rt.inbox.extend_from_slice(&truncated);

    match rt.receive() {
        Err(Error::Truncated { expected, received }) => {
            assert_eq!(expected, 8 + "a response that never fully arrives".len() + 1);
            assert_eq!(received, 8);
        }
        other => panic!("expected Truncated, got {other:?}"),
    }
}

#[test]
fn an_idle_socket_yields_no_more_data() {
    let mut rt = connect(accept_version(1, 28)).expect("connect");
    assert_eq!(rt.receive().unwrap(), Packet::NoMoreData);
}

#[test]
fn oversized_packets_are_rejected() {
    let config = *Builder::default().max_packet_size(1024 * 1024).config();
    let mut rt = connect_with(config, accept_version(1, 28)).expect("connect");
    let mut header = [0u8; 8];
    header[0..4].copy_from_slice(&0xFFFF_FFF0u32.to_le_bytes());
    header[4..8].copy_from_slice(&PacketType::Command.as_u32().to_le_bytes());
    rt.inbox.extend_from_slice(&header);
    assert!(matches!(rt.receive(), Err(Error::PacketTooLarge { .. })));
}

#[test]
fn commands_skip_interleaved_events() {
    // QTM pushes events asynchronously. Treating the first packet as the
    // command response makes commands fail whenever an event is in flight.
    let mut rt = connect(|cmd: &str| {
        if cmd.starts_with("Version ") {
            Some(command("Version set to 1.28"))
        } else if cmd == "GetState" {
            Some(event(1))
        } else if cmd == "TakeControl" {
            let mut reply = event(3); // CaptureStarted
            reply.extend_from_slice(&event(10)); // WaitingForTrigger
            reply.extend_from_slice(&command("You are now master"));
            Some(reply)
        } else {
            None
        }
    })
    .expect("connect");

    rt.expect(Request::TakeControl(""))
        .expect("take_control should skip interleaved events");
    assert_eq!(rt.session.last_event(), EventType::WaitingForTrigger);
}

#[test]
fn take_control_without_a_password_sends_no_trailing_space() {
    let mut rt = connect(|cmd: &str| {
        if cmd.starts_with("Version ") {
            Some(command("Version set to 1.28"))
        } else if cmd == "GetState" {
            Some(event(1))
        } else {
            Some(command("You are now master"))
        }
    })
    .expect("connect");
    rt.expect(Request::TakeControl("")).expect("take_control");

    let commands = &rt.sent;
    assert!(commands.iter().any(|c| c == "TakeControl"));
    assert!(
        !commands.iter().any(|c| c == "TakeControl "),
        "sent a trailing space: {commands:?}"
    );
}

#[test]
fn get_parameters_skips_events() {
    let mut rt = connect(|cmd: &str| {
        if cmd.starts_with("Version ") {
            Some(command("Version set to 1.28"))
        } else if cmd == "GetState" {
            Some(event(1))
        } else if cmd.starts_with("GetParameters") {
            let mut reply = event(11); // CameraSettingsChanged
            reply.extend_from_slice(&xml(
                "<QTM_Parameters_Ver_1.28><The_3D/></QTM_Parameters_Ver_1.28>",
            ));
            Some(reply)
        } else {
            None
        }
    })
    .expect("connect");

    let settings = rt.get_parameters(&[Parameter::ThreeD], false).expect("get_parameters");
    assert!(settings.contains("The_3D"), "got {settings}");
    // A camera settings notification is an event but not a state change.
    assert_eq!(rt.session.last_event(), EventType::CameraSettingsChanged);
    assert_eq!(rt.session.current_state(), EventType::Connected);
}

#[test]
fn skeleton_global_parameter_option() {
    let mut rt = connect(|cmd: &str| {
        if cmd.starts_with("Version ") {
            Some(command("Version set to 1.28"))
        } else if cmd == "GetState" {
            Some(event(1))
        } else if cmd.starts_with("GetParameters") {
            Some(xml("<x/>"))
        } else {
            None
        }
    })
    .expect("connect");
    rt.get_parameters(&[Parameter::Skeleton], true).expect("get_parameters_with");

    assert!(
        rt.sent.iter().any(|c| c == "GetParameters Skeleton:global"),
        "commands were {:?}",
        rt.sent
    );
}

#[test]
fn stream_frames_command_formatting() {
    let mut rt = connect(|cmd: &str| {
        if cmd.starts_with("Version ") {
            Some(command("Version set to 1.28"))
        } else if cmd == "GetState" {
            Some(event(1))
        } else {
            None
        }
    })
    .expect("connect");

    let tcp = stream_frames_command(
        StreamRate::Frequency(100),
        &[ComponentType::Markers3d],
        &ComponentOptions::default(),
    )
    .expect("stream_frames");
    rt.send(&tcp);

    let udp = stream_frames_udp_command(
        StreamRate::AllFrames,
        &[ComponentType::Skeleton, ComponentType::Analog],
        &ComponentOptions::default().skeleton_global().analog_channels("1,3,5-8"),
        6734,
        Some("192.168.0.5"),
    )
    .expect("stream_frames_udp");
    rt.send(&udp);

    for expected in [
        "StreamFrames Frequency:100 3D",
        "StreamFrames AllFrames UDP:192.168.0.5:6734 Skeleton:global Analog:1,3,5-8",
    ] {
        assert!(
            rt.sent.iter().any(|c| c == expected),
            "missing {expected:?} in {:?}",
            rt.sent
        );
    }
}

#[test]
fn stream_frames_rejects_an_empty_component_list() {
    let _rt = connect(accept_version(1, 28)).expect("connect");

    assert!(matches!(
        stream_frames_command(StreamRate::AllFrames, &[], &ComponentOptions::default()),
        Err(Error::InvalidArgument(_))
    ));
    assert!(matches!(
        stream_frames_udp_command(
            StreamRate::AllFrames,
            &[ComponentType::Markers3d],
            &ComponentOptions::default(),
            0,
            None
        ),
        Err(Error::InvalidArgument(_))
    ));
}

#[test]
fn qtm_error_packets_become_errors() {
    let mut rt = connect(|cmd: &str| {
        if cmd.starts_with("Version ") {
            Some(command("Version set to 1.28"))
        } else if cmd == "GetState" {
            Some(event(1))
        } else {
            Some(error_packet("Measurement is not running"))
        }
    })
    .expect("connect");
    match rt.expect(Request::Stop) {
        Err(Error::Qtm(message)) => assert_eq!(message, "Measurement is not running"),
        other => panic!("expected a Qtm error, got {other:?}"),
    }
}

#[test]
fn connecting_primes_the_state() {
    let rt = connect(accept_version(1, 28)).expect("connect");
    assert_eq!(rt.sent, vec!["Version 1.28".to_string(), "GetState".to_string()]);
    assert_eq!(rt.session.current_state(), EventType::Connected);
    assert_eq!(rt.session.last_event(), EventType::Connected);
}

#[test]
fn a_wrong_welcome_stops_the_handshake() {
    assert!(welcome_outcome(Packet::Command("QTM RT Interface connected".into())).is_ok());
    match welcome_outcome(Packet::Error("busy".into())) {
        Err(Error::Qtm(m)) => assert_eq!(m, "busy"),
        other => panic!("got {other:?}"),
    }
    match welcome_outcome(Packet::Command("hello".into())) {
        Err(Error::UnexpectedResponse { command, expected, .. }) => {
            assert_eq!(command, "<welcome>");
            assert_eq!(expected, vec!["QTM RT Interface connected".to_string()]);
        }
        other => panic!("got {other:?}"),
    }
}

#[test]
fn the_version_ladder() {
    let session = Session::new(Config::default());
    assert_eq!(
        session.version_candidates(),
        vec![(1, 28), (1, 27), (1, 26), (1, 25), (1, 24), (1, 23), (1, 22)]
    );

    let session = Session::new(*Builder::default().version(1, 25).config());
    assert_eq!(
        session.version_candidates(),
        vec![(1, 25), (1, 24), (1, 23), (1, 22)]
    );

    // A different major version keeps the whole ladder after it.
    let session = Session::new(*Builder::default().version(2, 0).config());
    let ladder = session.version_candidates();
    assert_eq!(ladder.len(), 8);
    assert_eq!(ladder[0], (2, 0));
    assert_eq!(ladder[1], (1, 28));
    assert_eq!(ladder[7], (1, 22));

    let session = Session::new(*Builder::default().without_version_negotiation().config());
    assert_eq!(session.version_candidates(), vec![(1, 28)]);
}

#[test]
fn negotiation_moves_on_after_a_refusal() {
    let session = Session::new(Config::default());
    let mut n = Negotiation::new(&session);
    assert_eq!(n.current(), Some((1, 28)));
    assert_eq!(n.next_command().as_deref(), Some("Version 1.28"));
    assert_eq!(n.on_reply(Err(Error::Timeout)), None);
    assert_eq!(n.current(), Some((1, 27)));
    assert_eq!(n.on_reply(Ok("Version set to 1.26".to_string())), None);
    assert_eq!(n.current(), Some((1, 26)));
    // Replies are compared trimmed and without regard to ASCII case.
    assert_eq!(n.on_reply(Ok("  version SET to 1.26 ".to_string())), Some((1, 26)));
    assert_eq!(n.current(), Some((1, 26)));
}

#[test]
fn default_configuration() {
    let c = Config::default();
    assert_eq!(c.version, (1, 28));
    assert!(c.negotiate_version);
    assert_eq!(c.byte_order, qualisys::ByteOrder::Little);
    assert_eq!(c.read_timeout, std::time::Duration::from_secs(1));
    assert_eq!(c.connect_timeout, std::time::Duration::from_secs(5));
    assert_eq!(c.command_timeout, std::time::Duration::from_secs(5));
    assert_eq!(c.max_packet_size, 512 * 1024 * 1024);
    assert_eq!(qualisys::DEFAULT_BASE_PORT, 22222);
    assert_eq!(qualisys::MIN_SUPPORTED_MINOR, 22);
}

#[test]
fn builder_sets_each_field() {
    let b = Builder::default()
        .version(1, 25)
        .big_endian()
        .read_timeout(std::time::Duration::from_millis(500))
        .connect_timeout(std::time::Duration::from_secs(2))
        .command_timeout(std::time::Duration::from_secs(3))
        .max_packet_size(4096);
    let c = b.config();
    assert_eq!(c.version, (1, 25));
    assert_eq!(c.byte_order, qualisys::ByteOrder::Big);
    assert_eq!(c.read_timeout, std::time::Duration::from_millis(500));
    assert_eq!(c.connect_timeout, std::time::Duration::from_secs(2));
    assert_eq!(c.command_timeout, std::time::Duration::from_secs(3));
    assert_eq!(c.max_packet_size, 4096);
    assert!(c.negotiate_version);
}

#[test]
fn the_port_follows_the_byte_order() {
    let little = Session::new(Config::default());
    assert_eq!(little.rt_port(22222), 22223);
    assert_eq!(little.rt_port(u16::MAX), u16::MAX);
    let big = Session::new(*Builder::default().big_endian().config());
    assert_eq!(big.rt_port(22222), 22224);
    assert_eq!(big.rt_port(u16::MAX - 1), u16::MAX);
}

#[test]
fn packet_sizes_are_checked() {
    let session = Session::new(*Builder::default().max_packet_size(100).config());
    assert!(matches!(session.packet_size(&[7, 0, 0, 0]), Err(Error::InvalidPacketSize(7))));
    assert_eq!(session.packet_size(&[8, 0, 0, 0]).unwrap(), 8);
    assert_eq!(session.packet_size(&[100, 0, 0, 0, 1, 0, 0, 0]).unwrap(), 100);
    match session.packet_size(&[101, 0, 0, 0]) {
        Err(Error::PacketTooLarge { size, limit }) => assert_eq!((size, limit), (101, 100)),
        other => panic!("got {other:?}"),
    }
    let big = Session::new(*Builder::default().big_endian().config());
    assert_eq!(big.packet_size(&[0, 0, 0, 9]).unwrap(), 9);
}

#[test]
fn read_failures_are_classified() {
    assert_eq!(
        header_read_failure(IoKind::WouldBlock, timed_out()).unwrap(),
        Packet::NoMoreData
    );
    assert!(matches!(
        header_read_failure(IoKind::UnexpectedEof, timed_out()),
        Err(Error::Io(_))
    ));
    assert!(matches!(
        header_read_failure(IoKind::Other, timed_out()),
        Err(Error::Io(_))
    ));
    assert!(matches!(
        body_read_failure(IoKind::UnexpectedEof, timed_out(), 40),
        Error::Truncated { expected: 40, received: 8 }
    ));
    assert!(matches!(body_read_failure(IoKind::Other, timed_out(), 40), Error::Io(_)));
}

#[test]
fn stripping_undoes_wrapping() {
    let mut session = Session::new(Config::default());
    session.set_negotiated_version(1, 28);
    let fragment = "  <The_3D><Label>a</Label></The_3D>\n";
    let wrapped = format!("<QTM_Parameters_Ver_1.28>{fragment}</QTM_Parameters_Ver_1.28>");
    assert_eq!(session.strip_parameters_element(&wrapped), fragment.trim());
    // Only the first of each tag goes, and text without them is only trimmed.
    assert_eq!(session.strip_parameters_element("  <x/> "), "<x/>");
    assert_eq!(
        session.strip_parameters_element(
            "<QTM_Parameters_Ver_1.27><a/></QTM_Parameters_Ver_1.27>"
        ),
        "<QTM_Parameters_Ver_1.27><a/></QTM_Parameters_Ver_1.27>"
    );
}

#[test]
fn observing_packets_tracks_events() {
    let mut session = Session::new(Config::default());
    assert_eq!(session.last_event(), EventType::NoEvent);
    session.observe(&Packet::Event(EventType::CaptureStarted));
    assert_eq!(session.current_state(), EventType::CaptureStarted);
    session.observe(&Packet::Event(EventType::CameraSettingsChanged));
    assert_eq!(session.current_state(), EventType::CaptureStarted);
    assert_eq!(session.last_event(), EventType::CameraSettingsChanged);
    session.observe(&Packet::Command("x".into()));
    assert_eq!(session.last_event(), EventType::CameraSettingsChanged);
}

#[test]
fn a_datagram_decodes_as_a_data_frame() {
    // A data frame carrying two labelled 3D markers.
    let mut payload = Vec::new();
    payload.extend_from_slice(&7u64.to_le_bytes()); // timestamp
    payload.extend_from_slice(&8u32.to_le_bytes()); // frame number
    payload.extend_from_slice(&1u32.to_le_bytes()); // component count

    let mut component = Vec::new();
    component.extend_from_slice(&2u32.to_le_bytes()); // marker count
    component.extend_from_slice(&1u16.to_le_bytes()); // drop rate
    component.extend_from_slice(&2u16.to_le_bytes()); // out of sync rate
    for i in 0..2 {
        for axis in 0..3 {
            component.extend_from_slice(&((i * 3 + axis) as f32).to_le_bytes());
        }
    }
    payload.extend_from_slice(&((component.len() + 8) as u32).to_le_bytes());
    payload.extend_from_slice(&1u32.to_le_bytes()); // ComponentType::Markers3d
    payload.extend_from_slice(&component);

    let datagram = encode(PacketType::Data, &payload);
    match Packet::decode(&datagram, qualisys::ByteOrder::Little).expect("decode") {
        Packet::Data(frame) => {
            assert_eq!(frame.frame_number, 8);
            assert_eq!(frame.timestamp, 7);
            let markers = frame.markers_3d().expect("3d component");
            assert_eq!(markers.markers.len(), 2);
            assert_eq!(f32::from_bits(markers.markers[1].position.x), 3.0);
        }
        other => panic!("got {other:?}"),
    }
}

#[test]
fn socket_errors_are_classified_by_kind() {
    let err = |k: ErrorKind| std::io::Error::new(k, "x");
    assert_eq!(header_read_error(err(ErrorKind::TimedOut)).unwrap(), Packet::NoMoreData);
    assert_eq!(header_read_error(err(ErrorKind::WouldBlock)).unwrap(), Packet::NoMoreData);
    match header_read_error(err(ErrorKind::UnexpectedEof)) {
        Err(Error::Io(e)) => {
            assert_eq!(e.kind(), ErrorKind::ConnectionAborted);
            assert_eq!(e.to_string(), "connection closed by QTM");
        }
        other => panic!("got {other:?}"),
    }
    match header_read_error(err(ErrorKind::PermissionDenied)) {
        Err(Error::Io(e)) => assert_eq!(e.kind(), ErrorKind::PermissionDenied),
        other => panic!("got {other:?}"),
    }
    assert!(matches!(
        body_read_error(err(ErrorKind::TimedOut), 40),
        Error::Truncated { expected: 40, received: 8 }
    ));
    assert!(matches!(
        body_read_error(err(ErrorKind::UnexpectedEof), 40),
        Error::Truncated { expected: 40, received: 8 }
    ));
    match body_read_error(err(ErrorKind::ConnectionReset), 40) {
        Error::Io(e) => assert_eq!(e.kind(), ErrorKind::ConnectionReset),
        other => panic!("got {other:?}"),
    }
}

#[test]
fn an_unexpected_welcome_reports_the_packet_it_got() {
    let packet = Packet::Command("hello".into());
    let shown = format!("{packet:?}");
    match welcome_outcome(packet) {
        Err(Error::UnexpectedResponse { got, .. }) => assert_eq!(got, shown),
        other => panic!("got {other:?}"),
    }
}
