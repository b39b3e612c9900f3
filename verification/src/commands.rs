//! Commands the client can issue to QTM: their text, the replies each one
//! accepts, and how a reply is judged.

use vstd::prelude::*;
use vstd::string::*;
use vstd::utf8::*;

use crate::components::{component_wire_name, ComponentType};
use crate::error::{Error, Result};
use crate::packet::{packet_kind_name, EventType, Packet};
use crate::text::{
    chars_of, decimal, eq_ignore_ascii_case, eq_ignoring_ascii_case, push_char, push_decimal,
    push_str, trim, trimmed,
};

verus! {

/// How often QTM should send data frames.
#[derive(Debug, Clone, Copy, PartialEq, Eq, Structural)]
pub enum StreamRate {
    /// Every captured frame.
    AllFrames,
    /// A fixed number of frames per second.
    Frequency(u32),
    /// Every Nth captured frame.
    FrequencyDivisor(u32),
}

/// The argument a stream rate is sent as.
pub open spec fn stream_rate_text(rate: StreamRate) -> Seq<char> {
    match rate {
        StreamRate::AllFrames => "AllFrames"@,
        StreamRate::Frequency(hz) => "Frequency:"@ + decimal(hz as nat),
        StreamRate::FrequencyDivisor(n) => "FrequencyDivisor:"@ + decimal(n as nat),
    }
}

impl StreamRate {
    pub fn as_argument(self) -> (r: String)
        ensures
            r@ == stream_rate_text(self),
    {
        let mut s = String::new();
        match self {
            StreamRate::AllFrames => push_str(&mut s, "AllFrames"),
            StreamRate::Frequency(hz) => {
                push_str(&mut s, "Frequency:");
                push_decimal(&mut s, hz as u64);
            },
            StreamRate::FrequencyDivisor(n) => {
                push_str(&mut s, "FrequencyDivisor:");
                push_decimal(&mut s, n as u64);
            },
        }
        assert(s@ =~= stream_rate_text(self));
        s
    }
}

/// Per-component modifiers accepted after a colon in the component list.
#[derive(Debug, Clone, Default, PartialEq, Eq)]
pub struct ComponentOptions {
    /// Restricts Analog and AnalogSingle to specific channels, for example
    /// `"1,3,5-8"`. `None` streams every channel.
    pub analog_channels: Option<String>,
    /// Requests skeleton segment transforms in the global coordinate system
    /// rather than relative to the parent segment.
    pub skeleton_global: bool,
}

impl ComponentOptions {
    /// Restricts analog streaming to the given channel specification.
    pub fn analog_channels(self, spec: &str) -> (r: Self)
        ensures
            r.analog_channels matches Some(s) && s@ == spec@,
            r.skeleton_global == self.skeleton_global,
    {
        ComponentOptions { analog_channels: Some(spec.to_string()), skeleton_global: self.skeleton_global }
    }

    /// Requests global skeleton coordinates.
    pub fn skeleton_global(self) -> (r: Self)
        ensures
            r.skeleton_global,
            r.analog_channels == self.analog_channels,
    {
        ComponentOptions { analog_channels: self.analog_channels, skeleton_global: true }
    }
}

/// The token for one component in a component list, with the option that
/// applies to it.
pub open spec fn component_token(c: ComponentType, options: ComponentOptions) -> Seq<char> {
    let name = component_wire_name(c);
    match c {
        ComponentType::Analog | ComponentType::AnalogSingle => match options.analog_channels {
            Some(channels) => name.push(':') + channels@,
            None => name,
        },
        ComponentType::Skeleton => if options.skeleton_global {
            name + ":global"@
        } else {
            name
        },
        _ => name,
    }
}

/// The tokens of `cs`, separated by single spaces.
pub open spec fn component_list(cs: Seq<ComponentType>, options: ComponentOptions) -> Seq<char>
    decreases cs.len(),
{
    if cs.len() == 0 {
        Seq::empty()
    } else if cs.len() == 1 {
        component_token(cs[0], options)
    } else {
        component_list(cs.drop_last(), options).push(' ') + component_token(cs.last(), options)
    }
}

/// Renders a component list with any applicable options.
pub fn component_string(components: &[ComponentType], options: &ComponentOptions) -> (r: Result<
    String,
>)
    ensures
        r is Err <==> components@.len() == 0,
        r matches Err(e) ==> e is InvalidArgument,
        r matches Ok(s) ==> s@ == component_list(components@, *options),
{
    if components.len() == 0 {
        let mut m = String::new();
        push_str(&mut m, "at least one component must be requested");
        return Err(Error::InvalidArgument(m));
    }
    let mut out = String::new();
    let mut i: usize = 0;
    while i < components.len()
        invariant
            0 <= i <= components@.len(),
            components@.len() > 0,
            out@ == component_list(components@.take(i as int), *options),
        decreases components@.len() - i,
    {
        let ghost before = out@;
        if i > 0 {
            push_char(&mut out, ' ');
        }
        let c = components[i];
        push_str(&mut out, c.wire_name());
        match c {
            ComponentType::Analog | ComponentType::AnalogSingle => {
                match &options.analog_channels {
                    Some(channels) => {
                        push_char(&mut out, ':');
                        push_str(&mut out, channels.as_str());
                    },
                    None => {},
                }
            },
            ComponentType::Skeleton => {
                if options.skeleton_global {
                    push_str(&mut out, ":global");
                }
            },
            _ => {},
        }
        proof {
            let t = components@.take(i + 1);
            assert(t.drop_last() =~= components@.take(i as int));
            assert(t.last() == c);
            if i == 0 {
                assert(out@ =~= component_token(c, *options));
            } else {
                assert(out@ =~= before.push(' ') + component_token(c, *options));
            }
        }
        i = i + 1;
    }
    assert(components@.take(components@.len() as int) =~= components@);
    Ok(out)
}

/// Which settings sections to fetch.
#[derive(Debug, Clone, Copy, PartialEq, Eq, Structural)]
pub enum Parameter {
    All,
    General,
    Calibration,
    ThreeD,
    SixD,
    Analog,
    Force,
    Image,
    GazeVector,
    EyeTracker,
    Skeleton,
}

/// The name QTM knows each settings section by.
pub open spec fn parameter_wire_name(p: Parameter) -> Seq<char> {
    match p {
        Parameter::All => "All"@,
        Parameter::General => "General"@,
        Parameter::Calibration => "Calibration"@,
        Parameter::ThreeD => "3D"@,
        Parameter::SixD => "6D"@,
        Parameter::Analog => "Analog"@,
        Parameter::Force => "Force"@,
        Parameter::Image => "Image"@,
        Parameter::GazeVector => "GazeVector"@,
        Parameter::EyeTracker => "EyeTracker"@,
        Parameter::Skeleton => "Skeleton"@,
    }
}

impl Parameter {
    pub fn wire_name(self) -> (r: &'static str)
        ensures
            r@ == parameter_wire_name(self),
    {
        match self {
            Parameter::All => "All",
            Parameter::General => "General",
            Parameter::Calibration => "Calibration",
            Parameter::ThreeD => "3D",
            Parameter::SixD => "6D",
            Parameter::Analog => "Analog",
            Parameter::Force => "Force",
            Parameter::Image => "Image",
            Parameter::GazeVector => "GazeVector",
            Parameter::EyeTracker => "EyeTracker",
            Parameter::Skeleton => "Skeleton",
        }
    }
}

/// LED modes.
#[derive(Debug, Clone, Copy, PartialEq, Eq, Structural)]
pub enum LedMode {
    On,
    Off,
    Pulsing,
}

pub open spec fn led_mode_text(m: LedMode) -> Seq<char> {
    match m {
        LedMode::On => "On"@,
        LedMode::Off => "Off"@,
        LedMode::Pulsing => "Pulsing"@,
    }
}

impl LedMode {
    pub fn as_str(self) -> (r: &'static str)
        ensures
            r@ == led_mode_text(self),
    {
        match self {
            LedMode::On => "On",
            LedMode::Off => "Off",
            LedMode::Pulsing => "Pulsing",
        }
    }
}

/// LED colours.
#[derive(Debug, Clone, Copy, PartialEq, Eq, Structural)]
pub enum LedColor {
    Amber,
    Green,
    All,
}

pub open spec fn led_color_text(c: LedColor) -> Seq<char> {
    match c {
        LedColor::Amber => "Amber"@,
        LedColor::Green => "Green"@,
        LedColor::All => "All"@,
    }
}

impl LedColor {
    pub fn as_str(self) -> (r: &'static str)
        ensures
            r@ == led_color_text(self),
    {
        match self {
            LedColor::Amber => "Amber",
            LedColor::Green => "Green",
            LedColor::All => "All",
        }
    }
}

/// `a`, a space and `b`.
pub open spec fn spaced(a: Seq<char>, b: Seq<char>) -> Seq<char> {
    a.push(' ') + b
}

/// A command that QTM answers with one of a fixed set of replies.
#[derive(Debug, Clone, Copy, PartialEq, Eq)]
pub enum Request<'a> {
    /// Negotiates a protocol version.
    Version(u32, u32),
    /// Takes control of QTM; an empty password when none is configured.
    TakeControl(&'a str),
    ReleaseControl,
    /// Creates a new measurement.
    New,
    /// Closes the current measurement or file.
    Close,
    /// Starts a capture, or real time playback from the loaded file.
    Start(bool),
    Stop,
    Load(&'a str),
    /// Saves the current measurement, optionally overwriting.
    Save(&'a str, bool),
    LoadProject(&'a str),
    Trig,
    /// Inserts a labelled event; the command was renamed from `Event` in
    /// protocol version 1.8, so it depends on the negotiated version.
    SetQtmEvent { label: &'a str, major: u32, minor: u32 },
    Reprocess,
    /// Runs a camera calibration, optionally refining the current one.
    Calibrate(bool),
    Quit,
    GetCaptureC3d,
    GetCaptureQtm,
}

/// `Version M.m`'s version text, `M.m`.
pub open spec fn version_text(major: u32, minor: u32) -> Seq<char> {
    decimal(major as nat).push('.') + decimal(minor as nat)
}

/// The text a request is sent as.
pub open spec fn request_text(r: Request) -> Seq<char> {
    match r {
        Request::Version(major, minor) => spaced("Version"@, version_text(major, minor)),
        Request::TakeControl(password) => if password@.len() == 0 {
            "TakeControl"@
        } else {
            spaced("TakeControl"@, password@)
        },
        Request::ReleaseControl => "ReleaseControl"@,
        Request::New => "New"@,
        Request::Close => "Close"@,
        Request::Start(rt_from_file) => if rt_from_file {
            "Start RTFromFile"@
        } else {
            "Start"@
        },
        Request::Stop => "Stop"@,
        Request::Load(filename) => spaced("Load"@, filename@),
        Request::Save(filename, overwrite) => if overwrite {
            spaced(spaced("Save"@, filename@), "Overwrite"@)
        } else {
            spaced("Save"@, filename@)
        },
        Request::LoadProject(path) => spaced("LoadProject"@, path@),
        Request::Trig => "Trig"@,
        Request::SetQtmEvent { label, major, minor } => if major == 1 && minor <= 7 {
            spaced("Event"@, label@)
        } else {
            spaced("SetQTMEvent"@, label@)
        },
        Request::Reprocess => "Reprocess"@,
        Request::Calibrate(refine) => if refine {
            "Calibrate Refine"@
        } else {
            "Calibrate"@
        },
        Request::Quit => "Quit"@,
        Request::GetCaptureC3d => "GetCaptureC3D"@,
        Request::GetCaptureQtm => "GetCaptureQTM"@,
    }
}

/// The replies that acknowledge a request.
pub open spec fn request_replies(r: Request) -> Seq<Seq<char>> {
    match r {
        Request::Version(major, minor) => seq![spaced("Version set to"@, version_text(major, minor))],
        Request::TakeControl(_) => seq!["You are now master"@, "You are already master"@],
        Request::ReleaseControl => seq![
            "You are now a regular client"@,
            "You are already a regular client"@,
        ],
        Request::New => seq!["Creating new connection"@, "Already connected"@],
        Request::Close => seq![
            "Closing connection"@,
            "Closing file"@,
            "File closed"@,
            "No connection to close"@,
        ],
        Request::Start(_) => seq!["Starting measurement"@, "Starting RT from file"@],
        Request::Stop => seq!["Stopping measurement"@],
        Request::Load(_) => seq!["Measurement loaded"@],
        Request::Save(filename, _) => seq![
            "Measurement saved"@,
            spaced("Measurement saved as"@, filename@),
        ],
        Request::LoadProject(_) => seq!["Project loaded"@],
        Request::Trig => seq!["Trig ok"@],
        Request::SetQtmEvent { .. } => seq!["Event set"@],
        Request::Reprocess => seq!["Reprocessing file"@],
        Request::Calibrate(_) => seq!["Starting calibration"@],
        Request::Quit => seq!["Bye bye"@],
        Request::GetCaptureC3d => seq!["Sending capture"@],
        Request::GetCaptureQtm => seq!["Sending capture"@],
    }
}

/// True when `response`, trimmed, matches one of `replies` up to ASCII case.
pub open spec fn reply_accepted(replies: Seq<Seq<char>>, response: Seq<char>) -> bool {
    exists|i: int| 0 <= i < replies.len() && eq_ignoring_ascii_case(#[trigger] replies[i], trim(response))
}

fn owned(s: &str) -> (r: String)
    ensures
        r@ == s@,
{
    s.to_string()
}

fn joined_with_space(a: &str, b: &str) -> (r: String)
    ensures
        r@ == spaced(a@, b@),
{
    let mut s = String::new();
    push_str(&mut s, a);
    push_char(&mut s, ' ');
    push_str(&mut s, b);
    assert(s@ =~= spaced(a@, b@));
    s
}

fn version_string(major: u32, minor: u32) -> (r: String)
    ensures
        r@ == version_text(major, minor),
{
    let mut s = String::new();
    push_decimal(&mut s, major as u64);
    push_char(&mut s, '.');
    push_decimal(&mut s, minor as u64);
    assert(s@ =~= version_text(major, minor));
    s
}

impl<'a> Request<'a> {
    /// The text this request is sent as.
    pub fn text(&self) -> (r: String)
        ensures
            r@ == request_text(*self),
    {
        match *self {
            Request::Version(major, minor) => {
                let v = version_string(major, minor);
                joined_with_space("Version", v.as_str())
            },
            Request::TakeControl(password) => {
                if password.is_empty() {
                    owned("TakeControl")
                } else {
                    joined_with_space("TakeControl", password)
                }
            },
            Request::ReleaseControl => owned("ReleaseControl"),
            Request::New => owned("New"),
            Request::Close => owned("Close"),
            Request::Start(rt_from_file) => {
                if rt_from_file {
                    owned("Start RTFromFile")
                } else {
                    owned("Start")
                }
            },
            Request::Stop => owned("Stop"),
            Request::Load(filename) => joined_with_space("Load", filename),
            Request::Save(filename, overwrite) => {
                let base = joined_with_space("Save", filename);
                if overwrite {
                    joined_with_space(base.as_str(), "Overwrite")
                } else {
                    base
                }
            },
            Request::LoadProject(path) => joined_with_space("LoadProject", path),
            Request::Trig => owned("Trig"),
            Request::SetQtmEvent { label, major, minor } => {
                if major == 1 && minor <= 7 {
                    joined_with_space("Event", label)
                } else {
                    joined_with_space("SetQTMEvent", label)
                }
            },
            Request::Reprocess => owned("Reprocess"),
            Request::Calibrate(refine) => {
                if refine {
                    owned("Calibrate Refine")
                } else {
                    owned("Calibrate")
                }
            },
            Request::Quit => owned("Quit"),
            Request::GetCaptureC3d => owned("GetCaptureC3D"),
            Request::GetCaptureQtm => owned("GetCaptureQTM"),
        }
    }

    /// The replies that acknowledge this request.
    pub fn replies(&self) -> (r: Vec<String>)
        ensures
            r@.len() == request_replies(*self).len(),
            forall|i: int| 0 <= i < r@.len() ==> (#[trigger] r@[i])@ == request_replies(*self)[i],
    {
        let mut v: Vec<String> = Vec::new();
        match *self {
            Request::Version(major, minor) => {
                let ver = version_string(major, minor);
                v.push(joined_with_space("Version set to", ver.as_str()));
            },
            Request::TakeControl(_) => {
                v.push(owned("You are now master"));
                v.push(owned("You are already master"));
            },
            Request::ReleaseControl => {
                v.push(owned("You are now a regular client"));
                v.push(owned("You are already a regular client"));
            },
            Request::New => {
                v.push(owned("Creating new connection"));
                v.push(owned("Already connected"));
            },
            Request::Close => {
                v.push(owned("Closing connection"));
                v.push(owned("Closing file"));
                v.push(owned("File closed"));
                v.push(owned("No connection to close"));
            },
            Request::Start(_) => {
                v.push(owned("Starting measurement"));
                v.push(owned("Starting RT from file"));
            },
            Request::Stop => v.push(owned("Stopping measurement")),
            Request::Load(_) => v.push(owned("Measurement loaded")),
            Request::Save(filename, _) => {
                v.push(owned("Measurement saved"));
                v.push(joined_with_space("Measurement saved as", filename));
            },
            Request::LoadProject(_) => v.push(owned("Project loaded")),
            Request::Trig => v.push(owned("Trig ok")),
            Request::SetQtmEvent { .. } => v.push(owned("Event set")),
            Request::Reprocess => v.push(owned("Reprocessing file")),
            Request::Calibrate(_) => v.push(owned("Starting calibration")),
            Request::Quit => v.push(owned("Bye bye")),
            Request::GetCaptureC3d => v.push(owned("Sending capture")),
            Request::GetCaptureQtm => v.push(owned("Sending capture")),
        }
        v
    }

    /// Checks QTM's response to this request against the replies that
    /// acknowledge it.
    pub fn check(&self, response: &str) -> (r: Result<()>)
        ensures
            r is Ok <==> reply_accepted(request_replies(*self), response@),
            r matches Err(e) ==> (e matches Error::UnexpectedResponse { command, got, expected }
                && command@ == request_text(*self) && got@ == response@ && expected@.len()
                == request_replies(*self).len() && forall|i: int|
                0 <= i < expected@.len() ==> (#[trigger] expected@[i])@ == request_replies(
                    *self,
                )[i]),
    {
        let replies = self.replies();
        let verdict = check_response(response, &replies);
        proof {
            let want = request_replies(*self);
            if verdict is Ok {
                let i = choose|i: int|
                    0 <= i < replies@.len() && eq_ignoring_ascii_case(
                        (#[trigger] replies@[i])@,
                        trim(response@),
                    );
                assert(eq_ignoring_ascii_case(want[i], trim(response@)));
            } else if reply_accepted(want, response@) {
                let i = choose|i: int|
                    0 <= i < want.len() && eq_ignoring_ascii_case(#[trigger] want[i], trim(response@));
                assert(replies@[i]@ == want[i]);
            }
        }
        match verdict {
            Ok(()) => Ok(()),
            Err(()) => Err(
                Error::UnexpectedResponse {
                    command: self.text(),
                    got: response.to_string(),
                    expected: replies,
                },
            ),
        }
    }
}

/// Whether `response`, trimmed, matches one of `replies` up to ASCII case.
pub fn check_response(response: &str, replies: &Vec<String>) -> (r: std::result::Result<(), ()>)
    ensures
        r is Ok <==> exists|i: int|
            0 <= i < replies@.len() && eq_ignoring_ascii_case(
                (#[trigger] replies@[i])@,
                trim(response@),
            ),
{
    let got = chars_of(trimmed(response).as_str());
    let mut i: usize = 0;
    while i < replies.len()
        invariant
            0 <= i <= replies@.len(),
            got@ == trim(response@),
            forall|j: int|
                0 <= j < i ==> !eq_ignoring_ascii_case((#[trigger] replies@[j])@, trim(response@)),
        decreases replies@.len() - i,
    {
        let want = chars_of(replies[i].as_str());
        if eq_ignore_ascii_case(&want, &got) {
            return Ok(());
        }
        i = i + 1;
    }
    Err(())
}

/// `GetLastEvent` before protocol version 1.10, `GetState` from then on.
pub open spec fn state_command_text(major: u32, minor: u32) -> Seq<char> {
    if major == 1 && minor <= 9 {
        "GetLastEvent"@
    } else {
        "GetState"@
    }
}

/// The command that asks QTM for its current state under the given protocol
/// version.
pub fn state_command(major: u32, minor: u32) -> (r: &'static str)
    ensures
        r@ == state_command_text(major, minor),
{
    if major == 1 && minor <= 9 {
        "GetLastEvent"
    } else {
        "GetState"
    }
}

/// The command that validates a license code.
pub fn check_license_command(license_code: &str) -> (r: String)
    ensures
        r@ == spaced("CheckLicense"@, license_code@),
{
    joined_with_space("CheckLicense", license_code)
}

/// True when two texts are equal character by character.
pub fn same_text(a: &str, b: &str) -> (r: bool)
    ensures
        r == (a@ == b@),
{
    let x = chars_of(a);
    let y = chars_of(b);
    if x.len() != y.len() {
        return false;
    }
    let mut i: usize = 0;
    while i < x.len()
        invariant
            0 <= i <= x@.len(),
            x@.len() == y@.len(),
            x@ == a@,
            y@ == b@,
            forall|j: int| 0 <= j < i ==> x@[j] == y@[j],
        decreases x@.len() - i,
    {
        if x[i] != y[i] {
            return false;
        }
        i = i + 1;
    }
    assert(x@ =~= y@);
    true
}

/// Judges QTM's reply to a license check: only `License pass` accepts it.
pub fn license_verdict(response: &str) -> (r: Result<()>)
    ensures
        r is Ok <==> response@ == "License pass"@,
        r matches Err(e) ==> (e matches Error::Qtm(m) && m@ == "license rejected: "@
            + response@),
{
    if same_text(response, "License pass") {
        return Ok(());
    }
    let mut m = String::new();
    push_str(&mut m, "license rejected: ");
    push_str(&mut m, response);
    Err(Error::Qtm(m))
}

/// True when QTM's reply to `ByteOrder` reports a big-endian connection.
pub fn is_big_endian_reply(response: &str) -> (r: bool)
    ensures
        r == (response@ == "Byte order is big endian"@),
{
    same_text(response, "Byte order is big endian")
}

/// The command that requests a single frame of the given components.
pub fn current_frame_command(components: &[ComponentType], options: &ComponentOptions) -> (r:
    Result<String>)
    ensures
        r is Err <==> components@.len() == 0,
        r matches Err(e) ==> e is InvalidArgument,
        r matches Ok(s) ==> s@ == spaced("GetCurrentFrame"@, component_list(components@, *options)),
{
    let list = component_string(components, options)?;
    Ok(joined_with_space("GetCurrentFrame", list.as_str()))
}

/// The UDP part of a stream command: ` UDP`, the address if one is given,
/// and the port.
pub open spec fn udp_text(port: u16, address: Option<Seq<char>>) -> Seq<char> {
    let head = " UDP"@;
    match address {
        Some(a) => head.push(':') + a + seq![':'] + decimal(port as nat),
        None => head.push(':') + decimal(port as nat),
    }
}

/// `StreamFrames`, the rate, the UDP destination if any and the component
/// list.
pub open spec fn stream_text(rate: StreamRate, udp: Option<Seq<char>>, list: Seq<char>) -> Seq<
    char,
> {
    let head = spaced("StreamFrames"@, stream_rate_text(rate));
    match udp {
        Some(u) => spaced(head + u, list),
        None => spaced(head, list),
    }
}

/// The text an optional owned string holds.
pub open spec fn owned_text(o: Option<String>) -> Option<Seq<char>> {
    match o {
        Some(u) => Some(u@),
        None => None,
    }
}

/// The text an optional string slice holds.
pub open spec fn slice_text(o: Option<&str>) -> Option<Seq<char>> {
    match o {
        Some(u) => Some(u@),
        None => None,
    }
}

fn stream_command(rate: StreamRate, udp: Option<String>, list: String) -> (r: String)
    ensures
        r@ == stream_text(rate, owned_text(udp), list@),
{
    let mut command = String::new();
    push_str(&mut command, "StreamFrames ");
    let argument = rate.as_argument();
    push_str(&mut command, argument.as_str());
    match &udp {
        Some(u) => push_str(&mut command, u.as_str()),
        None => {},
    }
    push_char(&mut command, ' ');
    push_str(&mut command, list.as_str());
    proof {
        reveal_strlit("StreamFrames ");
        reveal_strlit("StreamFrames");
        assert("StreamFrames "@ =~= "StreamFrames"@.push(' '));
    }
    assert(command@ =~= stream_text(rate, owned_text(udp), list@));
    command
}

/// The command that starts streaming over the existing TCP connection.
pub fn stream_frames_command(
    rate: StreamRate,
    components: &[ComponentType],
    options: &ComponentOptions,
) -> (r: Result<String>)
    ensures
        r is Err <==> components@.len() == 0,
        r matches Err(e) ==> e is InvalidArgument,
        r matches Ok(s) ==> s@ == stream_text(rate, None, component_list(components@, *options)),
{
    let list = component_string(components, options)?;
    Ok(stream_command(rate, None, list))
}

/// The command that streams data frames to a UDP endpoint while keeping
/// commands on the TCP connection. Without an address QTM sends to the
/// address the TCP connection came from.
pub fn stream_frames_udp_command(
    rate: StreamRate,
    components: &[ComponentType],
    options: &ComponentOptions,
    port: u16,
    address: Option<&str>,
) -> (r: Result<String>)
    ensures
        r is Ok <==> port != 0 && (address matches Some(a) ==> a.len() <= 64)
            && components@.len() > 0,
        r matches Err(e) ==> e is InvalidArgument,
        r matches Ok(s) ==> s@ == stream_text(
            rate,
            Some(udp_text(port, slice_text(address))),
            component_list(components@, *options),
        ),
{
    if port == 0 {
        let mut m = String::new();
        push_str(&mut m, "udp port must not be zero");
        return Err(Error::InvalidArgument(m));
    }
    match address {
        Some(a) => {
            if a.len() > 64 {
                let mut m = String::new();
                push_str(&mut m, "udp address is too long");
                return Err(Error::InvalidArgument(m));
            }
        },
        None => {},
    }
    let list = component_string(components, options)?;
    let mut udp = String::new();
    push_str(&mut udp, " UDP");
    match address {
        Some(a) => {
            push_char(&mut udp, ':');
            push_str(&mut udp, a);
        },
        None => {},
    }
    push_char(&mut udp, ':');
    push_decimal(&mut udp, port as u64);
    assert(udp@ =~= udp_text(port, slice_text(address)));
    Ok(stream_command(rate, Some(udp), list))
}

/// `Led`, the camera, the mode and the colour.
pub open spec fn led_text(camera: u32, mode: LedMode, color: LedColor) -> Seq<char> {
    spaced(spaced(spaced("Led"@, decimal(camera as nat)), led_mode_text(mode)), led_color_text(color))
}

/// The command that controls a camera's indicator LED.
pub fn led_command(camera: u32, mode: LedMode, color: LedColor) -> (r: String)
    ensures
        r@ == led_text(camera, mode, color),
{
    let mut s = String::new();
    push_str(&mut s, "Led ");
    push_decimal(&mut s, camera as u64);
    push_char(&mut s, ' ');
    push_str(&mut s, mode.as_str());
    push_char(&mut s, ' ');
    push_str(&mut s, color.as_str());
    proof {
        reveal_strlit("Led ");
        reveal_strlit("Led");
        assert("Led "@ =~= "Led"@.push(' '));
    }
    assert(s@ =~= led_text(camera, mode, color));
    s
}

/// The name a settings section is requested by: the skeleton section takes
/// a `:global` suffix when global coordinates are wanted.
pub open spec fn parameter_token(p: Parameter, skeleton_global: bool) -> Seq<char> {
    if p == Parameter::Skeleton && skeleton_global {
        "Skeleton:global"@
    } else {
        parameter_wire_name(p)
    }
}

/// The section names of `ps`, separated by single spaces.
pub open spec fn parameter_list(ps: Seq<Parameter>, skeleton_global: bool) -> Seq<char>
    decreases ps.len(),
{
    if ps.len() == 0 {
        Seq::empty()
    } else if ps.len() == 1 {
        parameter_token(ps[0], skeleton_global)
    } else {
        spaced(parameter_list(ps.drop_last(), skeleton_global), parameter_token(ps.last(), skeleton_global))
    }
}

/// `GetParameters` and the requested sections; no section requested means
/// all of them.
pub open spec fn parameters_text(ps: Seq<Parameter>, skeleton_global: bool) -> Seq<char> {
    if ps.len() == 0 {
        spaced("GetParameters"@, "All"@)
    } else {
        spaced("GetParameters"@, parameter_list(ps, skeleton_global))
    }
}

/// The command that fetches settings XML for the requested sections,
/// optionally asking for global skeleton coordinates.
pub fn parameters_command(parameters: &[Parameter], skeleton_global: bool) -> (r: String)
    ensures
        r@ == parameters_text(parameters@, skeleton_global),
{
    let mut s = String::new();
    push_str(&mut s, "GetParameters ");
    if parameters.len() == 0 {
        push_str(&mut s, "All");
        proof {
            reveal_strlit("GetParameters ");
            reveal_strlit("GetParameters");
            assert("GetParameters "@ =~= "GetParameters"@.push(' '));
        }
        assert(s@ =~= parameters_text(parameters@, skeleton_global));
        return s;
    }
    let ghost head = s@;
    let mut i: usize = 0;
    while i < parameters.len()
        invariant
            0 <= i <= parameters@.len(),
            parameters@.len() > 0,
            head == "GetParameters "@,
            s@ == head + parameter_list(parameters@.take(i as int), skeleton_global),
        decreases parameters@.len() - i,
    {
        let ghost before = s@;
        if i > 0 {
            push_char(&mut s, ' ');
        }
        let p = parameters[i];
        if p == Parameter::Skeleton && skeleton_global {
            push_str(&mut s, "Skeleton:global");
        } else {
            push_str(&mut s, p.wire_name());
        }
        proof {
            let t = parameters@.take(i + 1);
            assert(t.drop_last() =~= parameters@.take(i as int));
            assert(t.last() == p);
            if i == 0 {
                assert(s@ =~= head + parameter_token(p, skeleton_global));
            } else {
                assert(s@ =~= head + spaced(
                    parameter_list(parameters@.take(i as int), skeleton_global),
                    parameter_token(p, skeleton_global),
                ));
            }
        }
        i = i + 1;
    }
    assert(parameters@.take(parameters@.len() as int) =~= parameters@);
    proof {
        reveal_strlit("GetParameters ");
        reveal_strlit("GetParameters");
        assert("GetParameters "@ =~= "GetParameters"@.push(' '));
    }
    assert(s@ =~= parameters_text(parameters@, skeleton_global));
    s
}

/// A settings XML fragment wrapped in `<QTM_Settings>`.
pub open spec fn settings_text(xml: Seq<char>) -> Seq<char> {
    "<QTM_Settings>"@ + xml + "</QTM_Settings>"@
}

/// The document that sends a settings XML fragment.
pub fn settings_document(xml: &str) -> (r: String)
    ensures
        r@ == settings_text(xml@),
{
    let mut s = String::new();
    push_str(&mut s, "<QTM_Settings>");
    push_str(&mut s, xml);
    push_str(&mut s, "</QTM_Settings>");
    assert(s@ =~= settings_text(xml@));
    s
}

/// Judges the packet that answers a command: a command reply is the
/// response, an error packet is QTM's error, anything else is unexpected.
pub fn command_reply(packet: Packet) -> (r: Result<String>)
    ensures
        packet matches Packet::Command(v) ==> r matches Ok(s) && s == v,
        packet matches Packet::Error(m) ==> r matches Err(e) && e == Error::Qtm(m),
        !(packet is Command) && !(packet is Error) ==> (r matches Err(e) && e matches Error::UnexpectedPacket { expected, got }
            && expected@ == "command"@ && got@ == packet_kind_name(packet)),
{
    match packet {
        Packet::Command(response) => Ok(response),
        Packet::Error(message) => Err(Error::Qtm(message)),
        other => Err(Error::UnexpectedPacket { expected: "command", got: other.kind_name() }),
    }
}

/// Judges the packet that answers a settings document: only the command
/// reply `Setting parameters succeeded` accepts it.
pub fn settings_reply(packet: Packet) -> (r: Result<()>)
    ensures
        r is Ok <==> (packet matches Packet::Command(v) && v@ == "Setting parameters succeeded"@),
        packet matches Packet::Command(v) ==> (v@ != "Setting parameters succeeded"@ ==> (r matches Err(
            e,
        ) && e matches Error::UnexpectedResponse { command, got, expected } && command@
            == "<xml>"@ && got == v && expected@.len() == 1 && expected@[0]@
            == "Setting parameters succeeded"@)),
        packet matches Packet::Error(m) ==> r matches Err(e) && e == Error::Qtm(m),
        !(packet is Command) && !(packet is Error) ==> (r matches Err(e) && e matches Error::UnexpectedPacket { expected, got }
            && expected@ == "command"@ && got@ == packet_kind_name(packet)),
{
    match packet {
        Packet::Command(response) => {
            if same_text(response.as_str(), "Setting parameters succeeded") {
                Ok(())
            } else {
                let mut expected: Vec<String> = Vec::new();
                expected.push(owned("Setting parameters succeeded"));
                Err(Error::UnexpectedResponse { command: owned("<xml>"), got: response, expected })
            }
        },
        Packet::Error(message) => Err(Error::Qtm(message)),
        other => Err(Error::UnexpectedPacket { expected: "command", got: other.kind_name() }),
    }
}

/// Judges the packet that answers a capture download: the file packet of
/// the requested kind carries the capture.
pub fn capture_reply(packet: Packet, c3d: bool) -> (r: Result<Vec<u8>>)
    ensures
        packet matches Packet::C3dFile(b) ==> (c3d ==> (r matches Ok(v) && v == b)),
        packet matches Packet::QtmFile(b) ==> (!c3d ==> (r matches Ok(v) && v == b)),
        packet matches Packet::Error(m) ==> r matches Err(e) && e == Error::Qtm(m),
        !(c3d && packet is C3dFile) && !(!c3d && packet is QtmFile) && !(packet is Error) ==> (
        r matches Err(e) && e matches Error::UnexpectedPacket { expected, got } && expected@ == (
        if c3d {
            "c3d-file"@
        } else {
            "qtm-file"@
        }) && got@ == packet_kind_name(packet)),
{
    match packet {
        Packet::C3dFile(bytes) if c3d => Ok(bytes),
        Packet::QtmFile(bytes) if !c3d => Ok(bytes),
        Packet::Error(message) => Err(Error::Qtm(message)),
        other => Err(
            Error::UnexpectedPacket {
                expected: if c3d {
                    "c3d-file"
                } else {
                    "qtm-file"
                },
                got: other.kind_name(),
            },
        ),
    }
}

/// Refuses an empty capture: an empty transfer means something went wrong
/// upstream, and writing a zero byte file would hide that.
pub fn check_capture(bytes: &[u8]) -> (r: Result<()>)
    ensures
        r is Ok <==> bytes@.len() > 0,
        r matches Err(e) ==> e matches Error::Qtm(m) && m@ == "capture transfer returned no data"@,
{
    if bytes.len() == 0 {
        let mut m = String::new();
        push_str(&mut m, "capture transfer returned no data");
        return Err(Error::Qtm(m));
    }
    Ok(())
}

/// What a wait for a reply does with the packet that arrived.
#[derive(Debug)]
pub enum Wait<T> {
    /// Keep waiting.
    Continue,
    /// Stop waiting with this outcome.
    Done(Result<T>),
}

/// While waiting for settings XML: XML ends the wait, an error packet ends
/// it with QTM's error, anything else is skipped.
pub fn parameters_step(packet: Packet) -> (r: Wait<String>)
    ensures
        packet matches Packet::Xml(x) ==> r matches Wait::Done(Ok(v)) && v == x,
        packet matches Packet::Error(m) ==> r matches Wait::Done(Err(e)) && e == Error::Qtm(m),
        !(packet is Xml) && !(packet is Error) ==> r is Continue,
{
    match packet {
        Packet::Xml(xml) => Wait::Done(Ok(xml)),
        Packet::Error(message) => Wait::Done(Err(Error::Qtm(message))),
        _ => Wait::Continue,
    }
}

/// While waiting for a calibration result: as for settings XML, and a
/// closed connection ends the wait with an error.
pub fn calibration_step(packet: Packet) -> (r: Wait<String>)
    ensures
        packet matches Packet::Xml(x) ==> r matches Wait::Done(Ok(v)) && v == x,
        packet matches Packet::Error(m) ==> r matches Wait::Done(Err(e)) && e == Error::Qtm(m),
        packet == Packet::Event(EventType::ConnectionClosed) ==> (r matches Wait::Done(
            Err(Error::Qtm(m)),
        ) && m@ == "connection closed during calibration"@),
        !(packet is Xml) && !(packet is Error) && packet != Packet::Event(
            EventType::ConnectionClosed,
        ) ==> r is Continue,
{
    match packet {
        Packet::Xml(xml) => Wait::Done(Ok(xml)),
        Packet::Error(message) => Wait::Done(Err(Error::Qtm(message))),
        Packet::Event(EventType::ConnectionClosed) => {
            let mut m = String::new();
            push_str(&mut m, "connection closed during calibration");
            Wait::Done(Err(Error::Qtm(m)))
        },
        _ => Wait::Continue,
    }
}

/// While waiting for a command reply, events and idle reads are skipped.
pub fn skipped_while_waiting(packet: &Packet) -> (r: bool)
    ensures
        r <==> (packet is Event || packet is NoMoreData),
{
    match packet {
        Packet::Event(_) | Packet::NoMoreData => true,
        _ => false,
    }
}

/// How a component's options show in its token: Analog and AnalogSingle
/// both take a channel selection as `:` and the selection, in the same
/// form; a global skeleton takes `:global`; and a token is the bare wire
/// name exactly when no option applies to its component.
pub proof fn lemma_component_options(c: ComponentType, options: ComponentOptions)
    ensures
        component_wire_name(c).is_prefix_of(component_token(c, options)),
        (c == ComponentType::Analog || c == ComponentType::AnalogSingle) ==> (options.analog_channels
            matches Some(channels) ==> component_token(c, options) == component_wire_name(c)
            + ":"@ + channels@),
        c == ComponentType::Skeleton && options.skeleton_global ==> component_token(c, options)
            == component_wire_name(c) + ":global"@,
        component_token(ComponentType::AnalogSingle, options) == "AnalogSingle"@ + component_token(
            ComponentType::Analog,
            options,
        ).subrange(6, component_token(ComponentType::Analog, options).len() as int),
        component_token(c, options) == component_wire_name(c) <==> !(((c == ComponentType::Analog
            || c == ComponentType::AnalogSingle) && options.analog_channels is Some) || (c
            == ComponentType::Skeleton && options.skeleton_global)),
{
    reveal_strlit(":");
    reveal_strlit(":global");
    reveal_strlit("Analog");
    reveal_strlit("AnalogSingle");
    let name = component_wire_name(c);
    let t = component_token(c, options);
    assert(t.subrange(0, name.len() as int) =~= name);
    let a = component_token(ComponentType::Analog, options);
    match options.analog_channels {
        Some(ch) => {
            assert(component_wire_name(ComponentType::Analog) == "Analog"@);
            assert(a.subrange(6, a.len() as int) =~= ":"@ + ch@);
            assert(component_token(ComponentType::AnalogSingle, options) =~= "AnalogSingle"@ + (":"@
                + ch@));
        },
        None => {
            assert(a.subrange(6, a.len() as int) =~= Seq::<char>::empty());
            assert(component_token(ComponentType::AnalogSingle, options) =~= "AnalogSingle"@
                + Seq::<char>::empty());
        },
    }
    if ((c == ComponentType::Analog || c == ComponentType::AnalogSingle)
        && options.analog_channels is Some) || (c == ComponentType::Skeleton
        && options.skeleton_global) {
        assert(t.len() > name.len());
    }
    if (c == ComponentType::Analog || c == ComponentType::AnalogSingle) {
        if let Some(ch) = options.analog_channels {
            assert(t =~= name + ":"@ + ch@);
        }
    }
}

/// True of the requests that take no text argument.
pub open spec fn plain_request(r: Request) -> bool {
    r == Request::ReleaseControl || r == Request::New || r == Request::Close || r == Request::Start(false) || r == Request::Start(true) || r == Request::Stop || r == Request::Trig || r == Request::Reprocess || r == Request::Calibrate(false) || r == Request::Calibrate(true) || r == Request::Quit || r == Request::GetCaptureC3d || r == Request::GetCaptureQtm
}

/// The length, first and last character of a plain request's text, which
/// together already tell the plain requests apart.
spec fn request_key(r: Request) -> (nat, char, char) {
    match r {
        Request::ReleaseControl => (14, 'R', 'l'),
        Request::New => (3, 'N', 'w'),
        Request::Close => (5, 'C', 'e'),
        Request::Start(false) => (5, 'S', 't'),
        Request::Start(true) => (16, 'S', 'e'),
        Request::Stop => (4, 'S', 'p'),
        Request::Trig => (4, 'T', 'g'),
        Request::Reprocess => (9, 'R', 's'),
        Request::Calibrate(false) => (9, 'C', 'e'),
        Request::Calibrate(true) => (16, 'C', 'e'),
        Request::Quit => (4, 'Q', 't'),
        Request::GetCaptureC3d => (13, 'G', 'D'),
        Request::GetCaptureQtm => (13, 'G', 'M'),
        _ => (0, ' ', ' '),
    }
}

proof fn lemma_request_shape(r: Request)
    requires
        plain_request(r),
    ensures
        request_text(r).len() == request_key(r).0,
        request_text(r)[0] == request_key(r).1,
        request_text(r)[request_text(r).len() - 1] == request_key(r).2,
{
    reveal_strlit("ReleaseControl");
    reveal_strlit("New");
    reveal_strlit("Close");
    reveal_strlit("Start");
    reveal_strlit("Start RTFromFile");
    reveal_strlit("Stop");
    reveal_strlit("Trig");
    reveal_strlit("Reprocess");
    reveal_strlit("Calibrate");
    reveal_strlit("Calibrate Refine");
    reveal_strlit("Quit");
    reveal_strlit("GetCaptureC3D");
    reveal_strlit("GetCaptureQTM");
}

/// The flags of a request show in its text: a refining calibration is the
/// full calibration's command followed by ` Refine`, and real time playback
/// from file is the start command followed by ` RTFromFile`; and the text of
/// a request that takes no argument tells which request it is: no two of
/// them are sent as the same text.
pub proof fn lemma_request_texts(a: Request, b: Request)
    ensures
        request_text(Request::Calibrate(false)) == "Calibrate"@,
        request_text(Request::Calibrate(true)) == request_text(Request::Calibrate(false))
            + " Refine"@,
        request_text(Request::Start(false)) == "Start"@,
        request_text(Request::Start(true)) == request_text(Request::Start(false))
            + " RTFromFile"@,
        plain_request(a) && plain_request(b) && a != b ==> request_text(a) != request_text(b),
{
    reveal_strlit("Calibrate");
    reveal_strlit("Calibrate Refine");
    reveal_strlit(" Refine");
    reveal_strlit("Start");
    reveal_strlit("Start RTFromFile");
    reveal_strlit(" RTFromFile");
    assert("Calibrate Refine"@ =~= "Calibrate"@ + " Refine"@);
    assert("Start RTFromFile"@ =~= "Start"@ + " RTFromFile"@);
    if plain_request(a) && plain_request(b) {
        lemma_request_shape(a);
        lemma_request_shape(b);
    }
}

/// The length and first character of a settings section's name, which
/// together already tell the sections apart.
spec fn parameter_key(p: Parameter) -> (nat, char) {
    match p {
        Parameter::All => (3, 'A'),
        Parameter::General => (7, 'G'),
        Parameter::Calibration => (11, 'C'),
        Parameter::ThreeD => (2, '3'),
        Parameter::SixD => (2, '6'),
        Parameter::Analog => (6, 'A'),
        Parameter::Force => (5, 'F'),
        Parameter::Image => (5, 'I'),
        Parameter::GazeVector => (10, 'G'),
        Parameter::EyeTracker => (10, 'E'),
        Parameter::Skeleton => (8, 'S'),
    }
}

proof fn lemma_parameter_shape(p: Parameter)
    ensures
        parameter_wire_name(p).len() == parameter_key(p).0,
        parameter_wire_name(p)[0] == parameter_key(p).1,
{
    reveal_strlit("All");
    reveal_strlit("General");
    reveal_strlit("Calibration");
    reveal_strlit("3D");
    reveal_strlit("6D");
    reveal_strlit("Analog");
    reveal_strlit("Force");
    reveal_strlit("Image");
    reveal_strlit("GazeVector");
    reveal_strlit("EyeTracker");
    reveal_strlit("Skeleton");
}

/// Each settings section is requested by its own name: distinct sections
/// have distinct names; asking for no section is asking for `All`; asking
/// for one section sends `GetParameters` and that section's name; and the
/// section of each streamed component is named as the component is on the
/// wire.
pub proof fn lemma_parameter_names(p: Parameter, q: Parameter, skeleton_global: bool)
    ensures
        p != q ==> parameter_wire_name(p) != parameter_wire_name(q),
        parameters_text(Seq::empty(), skeleton_global) == parameters_text(
            seq![Parameter::All],
            skeleton_global,
        ),
        !(p == Parameter::Skeleton && skeleton_global) ==> parameters_text(
            seq![p],
            skeleton_global,
        ) == "GetParameters "@ + parameter_wire_name(p),
        parameter_wire_name(Parameter::ThreeD) == component_wire_name(ComponentType::Markers3d),
        parameter_wire_name(Parameter::SixD) == component_wire_name(ComponentType::Bodies6d),
        parameter_wire_name(Parameter::Analog) == component_wire_name(ComponentType::Analog),
        parameter_wire_name(Parameter::Force) == component_wire_name(ComponentType::Force),
        parameter_wire_name(Parameter::Image) == component_wire_name(ComponentType::Image),
        parameter_wire_name(Parameter::GazeVector) == component_wire_name(ComponentType::GazeVector),
        parameter_wire_name(Parameter::EyeTracker) == component_wire_name(ComponentType::EyeTracker),
        parameter_wire_name(Parameter::Skeleton) == component_wire_name(ComponentType::Skeleton),
{
    lemma_parameter_shape(p);
    lemma_parameter_shape(q);
    reveal_strlit("GetParameters");
    reveal_strlit("GetParameters ");
    assert("GetParameters "@ =~= "GetParameters"@.push(' '));
    assert(parameters_text(seq![p], skeleton_global) == spaced(
        "GetParameters"@,
        parameter_token(p, skeleton_global),
    ));
}

/// The arguments of a request show in its text after its command word and a
/// space: a password after `TakeControl` (no password, no argument), a
/// file name after `Load` and `Save`, with ` Overwrite` after the file name
/// when the file may be replaced, a project path after `LoadProject`, and a
/// label after the event command, which is `Event` up to protocol 1.7 and
/// `SetQTMEvent` from 1.8 on.
pub proof fn lemma_request_arguments(text: &str, overwrite: bool, major: u32, minor: u32)
    ensures
        request_text(Request::TakeControl(text)) == if text@.len() == 0 {
            "TakeControl"@
        } else {
            "TakeControl "@ + text@
        },
        request_text(Request::Load(text)) == "Load "@ + text@,
        request_text(Request::Save(text, false)) == "Save "@ + text@,
        request_text(Request::Save(text, true)) == request_text(Request::Save(text, false))
            + " Overwrite"@,
        request_text(Request::LoadProject(text)) == "LoadProject "@ + text@,
        request_text(Request::SetQtmEvent { label: text, major, minor }) == if major == 1 && minor
            <= 7 {
            "Event "@ + text@
        } else {
            "SetQTMEvent "@ + text@
        },
{
    reveal_strlit("TakeControl");
    reveal_strlit("TakeControl ");
    reveal_strlit("Load");
    reveal_strlit("Load ");
    reveal_strlit("Save");
    reveal_strlit("Save ");
    reveal_strlit("Overwrite");
    reveal_strlit(" Overwrite");
    reveal_strlit("LoadProject");
    reveal_strlit("LoadProject ");
    reveal_strlit("Event");
    reveal_strlit("Event ");
    reveal_strlit("SetQTMEvent");
    reveal_strlit("SetQTMEvent ");
    assert(spaced("TakeControl"@, text@) =~= "TakeControl "@ + text@);
    assert(spaced("Load"@, text@) =~= "Load "@ + text@);
    assert(spaced("Save"@, text@) =~= "Save "@ + text@);
    assert(spaced(spaced("Save"@, text@), "Overwrite"@) =~= "Save "@ + text@ + " Overwrite"@);
    assert(spaced("LoadProject"@, text@) =~= "LoadProject "@ + text@);
    assert(spaced("Event"@, text@) =~= "Event "@ + text@);
    assert(spaced("SetQTMEvent"@, text@) =~= "SetQTMEvent "@ + text@);
}

} // verus!
