use qualisys::commands::{
    calibration_step, capture_reply, check_capture, check_license_command, component_string,
    current_frame_command, is_big_endian_reply, led_command, license_verdict, parameters_command,
    settings_document, settings_reply, state_command, stream_frames_udp_command, Request, Wait,
};
use qualisys::{
    ComponentOptions, ComponentType, Error, EventType, LedColor, LedMode, Packet, Parameter,
    StreamRate,
};

#[test]
fn stream_rates_render_their_argument() {
    assert_eq!(StreamRate::AllFrames.as_argument(), "AllFrames");
    assert_eq!(StreamRate::Frequency(100).as_argument(), "Frequency:100");
    assert_eq!(StreamRate::FrequencyDivisor(4).as_argument(), "FrequencyDivisor:4");
}

#[test]
fn component_lists_carry_their_options() {
    let options = ComponentOptions::default().analog_channels("1,3,5-8").skeleton_global();
    assert_eq!(
        component_string(
            &[ComponentType::Analog, ComponentType::Skeleton, ComponentType::Markers3d],
            &options
        )
        .unwrap(),
        "Analog:1,3,5-8 Skeleton:global 3D"
    );
    assert_eq!(
        component_string(&[ComponentType::AnalogSingle], &ComponentOptions::default()).unwrap(),
        "AnalogSingle"
    );
    match component_string(&[], &options) {
        Err(Error::InvalidArgument(m)) => assert_eq!(m, "at least one component must be requested"),
        other => panic!("got {other:?}"),
    }
}

#[test]
fn request_texts() {
    assert_eq!(Request::Version(1, 28).text(), "Version 1.28");
    assert_eq!(Request::TakeControl("").text(), "TakeControl");
    assert_eq!(Request::TakeControl("secret").text(), "TakeControl secret");
    assert_eq!(Request::Start(true).text(), "Start RTFromFile");
    assert_eq!(Request::Start(false).text(), "Start");
    assert_eq!(Request::Save("a.qtm", true).text(), "Save a.qtm Overwrite");
    assert_eq!(Request::Save("a.qtm", false).text(), "Save a.qtm");
    assert_eq!(Request::Load("b.qtm").text(), "Load b.qtm");
    assert_eq!(Request::LoadProject("C:/p").text(), "LoadProject C:/p");
    assert_eq!(
        Request::SetQtmEvent { label: "hit", major: 1, minor: 7 }.text(),
        "Event hit"
    );
    assert_eq!(
        Request::SetQtmEvent { label: "hit", major: 1, minor: 8 }.text(),
        "SetQTMEvent hit"
    );
    assert_eq!(Request::Calibrate(true).text(), "Calibrate Refine");
    assert_eq!(Request::GetCaptureC3d.text(), "GetCaptureC3D");
    assert_eq!(Request::GetCaptureQtm.text(), "GetCaptureQTM");
    assert_eq!(Request::Quit.text(), "Quit");
}

#[test]
fn requests_accept_their_replies() {
    assert!(Request::Version(1, 25).check("Version set to 1.25").is_ok());
    assert!(Request::Version(1, 25).check("Version set to 1.26").is_err());
    assert!(Request::Save("a.qtm", false).check("Measurement saved as a.qtm").is_ok());
    assert!(Request::Save("a.qtm", false).check("measurement SAVED").is_ok());
    assert!(Request::Close.check("No connection to close").is_ok());
    assert!(Request::New.check(" Already connected\n").is_ok());
    assert!(Request::Trig.check("Trig ok").is_ok());
    match Request::Stop.check("nope") {
        Err(Error::UnexpectedResponse { command, got, expected }) => {
            assert_eq!(command, "Stop");
            assert_eq!(got, "nope");
            assert_eq!(expected, vec!["Stopping measurement".to_string()]);
        }
        other => panic!("got {other:?}"),
    }
}

#[test]
fn parameter_requests() {
    assert_eq!(parameters_command(&[], false), "GetParameters All");
    assert_eq!(
        parameters_command(&[Parameter::ThreeD, Parameter::SixD], false),
        "GetParameters 3D 6D"
    );
    assert_eq!(
        parameters_command(&[Parameter::Skeleton, Parameter::Image], true),
        "GetParameters Skeleton:global Image"
    );
    assert_eq!(parameters_command(&[Parameter::Skeleton], false), "GetParameters Skeleton");
    assert_eq!(
        settings_document("<The_3D/>"),
        "<QTM_Settings><The_3D/></QTM_Settings>"
    );
}

#[test]
fn simple_commands() {
    assert_eq!(led_command(2, LedMode::Pulsing, LedColor::Amber), "Led 2 Pulsing Amber");
    assert_eq!(check_license_command("abc-123"), "CheckLicense abc-123");
    assert_eq!(state_command(1, 9), "GetLastEvent");
    assert_eq!(state_command(1, 10), "GetState");
    assert_eq!(
        current_frame_command(&[ComponentType::Bodies6d], &ComponentOptions::default()).unwrap(),
        "GetCurrentFrame 6D"
    );
    assert!(current_frame_command(&[], &ComponentOptions::default()).is_err());
}

#[test]
fn udp_streaming_checks_its_arguments() {
    let long = "a".repeat(65);
    assert!(matches!(
        stream_frames_udp_command(
            StreamRate::AllFrames,
            &[ComponentType::Markers3d],
            &ComponentOptions::default(),
            5000,
            Some(&long)
        ),
        Err(Error::InvalidArgument(_))
    ));
    assert_eq!(
        stream_frames_udp_command(
            StreamRate::FrequencyDivisor(2),
            &[ComponentType::Markers3d],
            &ComponentOptions::default(),
            5000,
            None
        )
        .unwrap(),
        "StreamFrames FrequencyDivisor:2 UDP:5000 3D"
    );
}

#[test]
fn replies_are_judged() {
    assert!(license_verdict("License pass").is_ok());
    match license_verdict("License failed") {
        Err(Error::Qtm(m)) => assert_eq!(m, "license rejected: License failed"),
        other => panic!("got {other:?}"),
    }
    assert!(is_big_endian_reply("Byte order is big endian"));
    assert!(!is_big_endian_reply("Byte order is little endian"));

    assert!(settings_reply(Packet::Command("Setting parameters succeeded".into())).is_ok());
    assert!(matches!(
        settings_reply(Packet::Command("no".into())),
        Err(Error::UnexpectedResponse { .. })
    ));
    assert!(matches!(
        settings_reply(Packet::Xml("<x/>".into())),
        Err(Error::UnexpectedPacket { expected: "command", got: "xml" })
    ));
}

#[test]
fn captures_must_be_the_requested_kind_and_not_empty() {
    assert_eq!(capture_reply(Packet::C3dFile(vec![1, 2]), true).unwrap(), vec![1, 2]);
    assert_eq!(capture_reply(Packet::QtmFile(vec![3]), false).unwrap(), vec![3]);
    assert!(matches!(
        capture_reply(Packet::QtmFile(vec![3]), true),
        Err(Error::UnexpectedPacket { expected: "c3d-file", got: "qtm-file" })
    ));
    match capture_reply(Packet::Error("no capture".into()), false) {
        Err(Error::Qtm(m)) => assert_eq!(m, "no capture"),
        other => panic!("got {other:?}"),
    }
    assert!(check_capture(&[1]).is_ok());
    match check_capture(&[]) {
        Err(Error::Qtm(m)) => assert_eq!(m, "capture transfer returned no data"),
        other => panic!("got {other:?}"),
    }
}

#[test]
fn calibration_waits_for_its_result() {
    assert!(matches!(calibration_step(Packet::Event(EventType::CalibrationStarted)), Wait::Continue));
    assert!(matches!(calibration_step(Packet::NoMoreData), Wait::Continue));
    match calibration_step(Packet::Xml("<calibration/>".into())) {
        Wait::Done(Ok(x)) => assert_eq!(x, "<calibration/>"),
        other => panic!("got {other:?}"),
    }
    match calibration_step(Packet::Event(EventType::ConnectionClosed)) {
        Wait::Done(Err(Error::Qtm(m))) => assert_eq!(m, "connection closed during calibration"),
        other => panic!("got {other:?}"),
    }
}
