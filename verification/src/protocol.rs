//! Connection settings and the state a QTM real time connection keeps: the
//! negotiated version, the last reported event, and the decisions taken on
//! every packet read. The socket itself is driven by the caller.

use vstd::prelude::*;
use vstd::string::*;

use crate::commands::{
    reply_accepted, request_replies, request_text, same_text, version_text, Request,
};
use crate::cursor::{u32_at, ByteOrder};
use crate::error::{io_error_kind, io_kind, Error, IoKind, Result};
use crate::packet::{packet_of, packet_ok, EventType, Packet, PACKET_HEADER_SIZE};
use crate::text::{
    chars_of, decimal, digit_char, first_occurrence_from, lemma_first_occurrence, occurs_at,
    push_char, push_decimal, push_str, remove_first, string_from, trim, trim_bounds,
    without_first,
};

verus! {

/// Newest protocol version this crate knows about.
pub const DEFAULT_VERSION: (u32, u32) = (1, 28);

/// Oldest protocol version a connection will negotiate down to.
pub const MIN_SUPPORTED_MINOR: u32 = 22;

/// QTM's base port. The little-endian listener is at `base + 1` and the
/// big-endian listener at `base + 2`; the base port itself speaks protocol
/// version 1.0, which this crate does not implement.
pub const DEFAULT_BASE_PORT: u16 = 22222;

/// Caps how large a packet may claim to be.
///
/// Image and file packets are legitimately large, but a size field taken
/// straight off the wire is an easy way to make a client allocate itself to
/// death.
pub const DEFAULT_MAX_PACKET_SIZE: usize = 512 * 1024 * 1024;

/// What QTM sends first on a new connection.
pub const WELCOME_MESSAGE: &'static str = "QTM RT Interface connected";

/// The duration `Duration::from_secs` builds from a number of seconds.
pub uninterp spec fn duration_of_secs(secs: u64) -> std::time::Duration;

/// Builds a duration of whole seconds with `Duration::from_secs`.
#[verifier::external_body]
fn duration_from_secs(secs: u64) -> (r: std::time::Duration)
    ensures
        r == duration_of_secs(secs),
{
    std::time::Duration::from_secs(secs)
}

/// Configuration for a connection.
#[derive(Debug, Clone, Copy)]
pub struct Config {
    /// Protocol version to request first.
    pub version: (u32, u32),
    /// Whether to fall back to older versions when QTM rejects the request.
    pub negotiate_version: bool,
    /// Byte order, which also selects the port offset.
    pub byte_order: ByteOrder,
    /// How long a read waits for a packet to start arriving.
    pub read_timeout: std::time::Duration,
    /// TCP connect timeout.
    pub connect_timeout: std::time::Duration,
    /// How long to wait for a command response.
    pub command_timeout: std::time::Duration,
    /// Largest packet that will be accepted.
    pub max_packet_size: usize,
}

/// The default configuration: the newest version with fallback, little
/// endian, reads waiting one second, connects and commands five.
pub open spec fn default_config() -> Config {
    Config {
        version: DEFAULT_VERSION,
        negotiate_version: true,
        byte_order: ByteOrder::Little,
        read_timeout: duration_of_secs(1),
        connect_timeout: duration_of_secs(5),
        command_timeout: duration_of_secs(5),
        max_packet_size: DEFAULT_MAX_PACKET_SIZE,
    }
}

impl Default for Config {
    fn default() -> (r: Self)
        ensures
            r == default_config(),
    {
        Config {
            version: DEFAULT_VERSION,
            negotiate_version: true,
            byte_order: ByteOrder::Little,
            read_timeout: duration_from_secs(1),
            connect_timeout: duration_from_secs(5),
            command_timeout: duration_from_secs(5),
            max_packet_size: DEFAULT_MAX_PACKET_SIZE,
        }
    }
}

/// Builder for a connection's configuration.
#[derive(Debug, Clone, Copy)]
pub struct Builder {
    config: Config,
}

impl View for Builder {
    type V = Config;

    closed spec fn view(&self) -> Config {
        self.config
    }
}

impl Default for Builder {
    fn default() -> (r: Self)
        ensures
            r@ == default_config(),
    {
        Builder { config: Config::default() }
    }
}

impl Builder {
    /// Requests a specific protocol version instead of the crate default.
    pub fn version(self, major: u32, minor: u32) -> (r: Self)
        ensures
            r@ == (Config { version: (major, minor), ..self@ }),
    {
        let mut b = self;
        b.config.version = (major, minor);
        b
    }

    /// Disables falling back to older protocol versions.
    pub fn without_version_negotiation(self) -> (r: Self)
        ensures
            r@ == (Config { negotiate_version: false, ..self@ }),
    {
        let mut b = self;
        b.config.negotiate_version = false;
        b
    }

    /// Selects the big-endian port and byte order.
    pub fn big_endian(self) -> (r: Self)
        ensures
            r@ == (Config { byte_order: ByteOrder::Big, ..self@ }),
    {
        let mut b = self;
        b.config.byte_order = ByteOrder::Big;
        b
    }

    pub fn read_timeout(self, d: std::time::Duration) -> (r: Self)
        ensures
            r@ == (Config { read_timeout: d, ..self@ }),
    {
        let mut b = self;
        b.config.read_timeout = d;
        b
    }

    pub fn connect_timeout(self, d: std::time::Duration) -> (r: Self)
        ensures
            r@ == (Config { connect_timeout: d, ..self@ }),
    {
        let mut b = self;
        b.config.connect_timeout = d;
        b
    }

    pub fn command_timeout(self, d: std::time::Duration) -> (r: Self)
        ensures
            r@ == (Config { command_timeout: d, ..self@ }),
    {
        let mut b = self;
        b.config.command_timeout = d;
        b
    }

    pub fn max_packet_size(self, bytes: usize) -> (r: Self)
        ensures
            r@ == (Config { max_packet_size: bytes, ..self@ }),
    {
        let mut b = self;
        b.config.max_packet_size = bytes;
        b
    }

    /// The configuration built so far.
    pub fn config(&self) -> (r: &Config)
        ensures
            *r == self@,
    {
        &self.config
    }
}


/// The versions a connection falls back to after `want`, newest first: the
/// minor versions of the default major version from `hi` down to `lo`,
/// leaving out any at or above the requested one when the major versions
/// agree.
pub open spec fn fallback_versions(want: (u32, u32), hi: int, lo: int) -> Seq<(u32, u32)>
    decreases hi - lo + 1,
{
    if lo > hi {
        seq![]
    } else {
        let rest = fallback_versions(want, hi, lo + 1);
        if want.0 == DEFAULT_VERSION.0 && lo >= want.1 {
            rest
        } else {
            rest.push((DEFAULT_VERSION.0, lo as u32))
        }
    }
}

/// The ordered list of versions a connection tries: the requested version
/// first, then, when negotiation is on, every supported older one.
pub open spec fn version_candidates_of(c: Config) -> Seq<(u32, u32)> {
    if c.negotiate_version {
        seq![c.version] + fallback_versions(
            c.version,
            DEFAULT_VERSION.1 as int,
            MIN_SUPPORTED_MINOR as int,
        )
    } else {
        seq![c.version]
    }
}

proof fn lemma_fallback_versions(want: (u32, u32), hi: int, lo: int)
    requires
        0 <= lo,
        hi <= u32::MAX,
    ensures
        ({
            let s = fallback_versions(want, hi, lo);
            &&& forall|i: int|
                0 <= i < s.len() ==> (#[trigger] s[i]).0 == DEFAULT_VERSION.0 && lo <= s[i].1 <= hi
                    && !(want.0 == DEFAULT_VERSION.0 && s[i].1 >= want.1)
            &&& forall|i: int, j: int| 0 <= i < j < s.len() ==> (#[trigger] s[i]).1 > (#[trigger] s[j]).1
            &&& forall|m: int|
                lo <= m <= hi && !(want.0 == DEFAULT_VERSION.0 && m >= want.1) ==> #[trigger] s.contains(
                    (DEFAULT_VERSION.0, m as u32),
                )
        }),
    decreases hi - lo + 1,
{
    if lo <= hi {
        lemma_fallback_versions(want, hi, lo + 1);
        let rest = fallback_versions(want, hi, lo + 1);
        let s = fallback_versions(want, hi, lo);
        if !(want.0 == DEFAULT_VERSION.0 && lo >= want.1) {
            assert(s == rest.push((DEFAULT_VERSION.0, lo as u32)));
            assert forall|m: int|
                lo <= m <= hi && !(want.0 == DEFAULT_VERSION.0 && m >= want.1) implies #[trigger] s.contains(
                (DEFAULT_VERSION.0, m as u32),
            ) by {
                if m == lo {
                    assert(s[s.len() - 1] == (DEFAULT_VERSION.0, m as u32));
                } else {
                    assert(rest.contains((DEFAULT_VERSION.0, m as u32)));
                    let k = choose|k: int| 0 <= k < rest.len() && rest[k] == (DEFAULT_VERSION.0, m as u32);
                    assert(s[k] == rest[k]);
                }
            }
        }
    }
}

/// The version ladder: the requested version comes first; without
/// negotiation it is the only one; every later one has the default major
/// version and a supported minor version, strictly older than the one before
/// it and, for the same major version, older than the requested one; and no
/// supported version below the request is left out.
pub proof fn lemma_version_candidates(c: Config)
    ensures
        ({
            let s = version_candidates_of(c);
            &&& s.len() >= 1
            &&& s[0] == c.version
            &&& !c.negotiate_version ==> s.len() == 1
            &&& forall|i: int|
                1 <= i < s.len() ==> (#[trigger] s[i]).0 == DEFAULT_VERSION.0 && MIN_SUPPORTED_MINOR
                    <= s[i].1 <= DEFAULT_VERSION.1 && (c.version.0 == DEFAULT_VERSION.0 ==> s[i].1
                    < c.version.1)
            &&& forall|i: int, j: int| 1 <= i < j < s.len() ==> (#[trigger] s[i]).1 > (#[trigger] s[j]).1
            &&& c.negotiate_version ==> forall|m: u32|
                MIN_SUPPORTED_MINOR <= m <= DEFAULT_VERSION.1 && !(c.version.0 == DEFAULT_VERSION.0
                    && m >= c.version.1) ==> #[trigger] s.contains((DEFAULT_VERSION.0, m))
        }),
{
    let s = version_candidates_of(c);
    if c.negotiate_version {
        let f = fallback_versions(c.version, DEFAULT_VERSION.1 as int, MIN_SUPPORTED_MINOR as int);
        lemma_fallback_versions(c.version, DEFAULT_VERSION.1 as int, MIN_SUPPORTED_MINOR as int);
        assert forall|i: int| 1 <= i < s.len() implies (#[trigger] s[i]).0 == DEFAULT_VERSION.0
            && MIN_SUPPORTED_MINOR <= s[i].1 <= DEFAULT_VERSION.1 && (c.version.0
            == DEFAULT_VERSION.0 ==> s[i].1 < c.version.1) by {
            assert(s[i] == f[i - 1]);
        }
        assert forall|i: int, j: int| 1 <= i < j < s.len() implies (#[trigger] s[i]).1 > (
        #[trigger] s[j]).1 by {
            assert(s[i] == f[i - 1]);
            assert(s[j] == f[j - 1]);
        }
        assert forall|m: u32|
            MIN_SUPPORTED_MINOR <= m <= DEFAULT_VERSION.1 && !(c.version.0 == DEFAULT_VERSION.0
                && m >= c.version.1) implies #[trigger] s.contains((DEFAULT_VERSION.0, m)) by {
            assert(f.contains((DEFAULT_VERSION.0, m as int as u32)));
            let k = choose|k: int| 0 <= k < f.len() && f[k] == (DEFAULT_VERSION.0, m);
            assert(s[k + 1] == f[k]);
        }
    }
}

/// The supported versions of the default major version, newest first.
pub open spec fn supported_versions() -> Seq<(u32, u32)> {
    versions_down_from(DEFAULT_VERSION.1 as int, MIN_SUPPORTED_MINOR as int)
}

/// The versions of the default major version with minor versions from `hi`
/// down to `lo`.
pub open spec fn versions_down_from(hi: int, lo: int) -> Seq<(u32, u32)> {
    Seq::new(
        (if lo <= hi {
            hi - lo + 1
        } else {
            0
        }) as nat,
        |i: int| (DEFAULT_VERSION.0, (hi - i) as u32),
    )
}

/// True of a version a connection asking for `want` may fall back to: any
/// but those of the same major version that are not older than `want`.
pub open spec fn may_fall_back(want: (u32, u32)) -> spec_fn((u32, u32)) -> bool {
    |v: (u32, u32)| !(want.0 == DEFAULT_VERSION.0 && v.1 >= want.1)
}

proof fn lemma_fallback_filter(want: (u32, u32), hi: int, lo: int)
    requires
        0 <= lo <= hi + 1,
        hi <= u32::MAX,
    ensures
        fallback_versions(want, hi, lo) == versions_down_from(hi, lo).filter(may_fall_back(want)),
    decreases hi - lo + 1,
{
    reveal(Seq::filter);
    let full = versions_down_from(hi, lo);
    if lo > hi {
        assert(full.filter(may_fall_back(want)) =~= Seq::<(u32, u32)>::empty());
    } else {
        lemma_fallback_filter(want, hi, lo + 1);
        assert(full.drop_last() =~= versions_down_from(hi, lo + 1));
        assert(full.last() == (DEFAULT_VERSION.0, lo as u32));
    }
}

/// The version ladder as a list: the requested version, then, when
/// negotiation is on, the supported versions from 1.28 down to 1.22, newest
/// first, leaving out those of the requested major version that are not
/// older than the request.
pub proof fn lemma_version_ladder(c: Config)
    ensures
        version_candidates_of(c) == if c.negotiate_version {
            seq![c.version] + supported_versions().filter(may_fall_back(c.version))
        } else {
            seq![c.version]
        },
{
    lemma_fallback_filter(c.version, DEFAULT_VERSION.1 as int, MIN_SUPPORTED_MINOR as int);
}

/// What a connection knows about itself, apart from its socket.
pub struct SessionView {
    pub config: Config,
    /// The negotiated protocol version; `(0, 0)` before negotiation.
    pub version: (u32, u32),
    /// QTM's state as the last state-changing event reported it.
    pub state: EventType,
    /// The most recent event QTM reported.
    pub last_event: EventType,
}

/// The state of a connection to QTM: its configuration, the negotiated
/// version and the events QTM reported. The socket is the caller's.
#[derive(Debug)]
pub struct Session {
    config: Config,
    version: (u32, u32),
    state: EventType,
    last_event: EventType,
}

impl View for Session {
    type V = SessionView;

    closed spec fn view(&self) -> SessionView {
        SessionView {
            config: self.config,
            version: self.version,
            state: self.state,
            last_event: self.last_event,
        }
    }
}

/// The session after reading `p`: an event becomes the last event, and the
/// state too unless it only reports changed camera settings; any other
/// packet leaves the session as it was.
pub open spec fn observed(v: SessionView, p: Packet) -> SessionView {
    match p {
        Packet::Event(e) => SessionView {
            last_event: e,
            state: if e == EventType::CameraSettingsChanged {
                v.state
            } else {
                e
            },
            ..v
        },
        _ => v,
    }
}

/// The port of QTM's real time listener for a byte order: one above the base
/// port for little endian, two above for big endian, saturating at the
/// largest port.
pub open spec fn rt_port_of(base_port: u16, order: ByteOrder) -> u16 {
    let offset: int = match order {
        ByteOrder::Little => 1,
        ByteOrder::Big => 2,
    };
    if base_port + offset > u16::MAX {
        u16::MAX
    } else {
        (base_port + offset) as u16
    }
}

/// The root element name of the settings XML for a protocol version.
pub open spec fn parameters_element_text(version: (u32, u32)) -> Seq<char> {
    "QTM_Parameters_Ver_"@ + version_text(version.0, version.1)
}

/// The opening tag of the settings root element.
pub open spec fn open_tag(version: (u32, u32)) -> Seq<char> {
    seq!['<'] + parameters_element_text(version) + seq!['>']
}

/// The closing tag of the settings root element.
pub open spec fn close_tag(version: (u32, u32)) -> Seq<char> {
    "</"@ + parameters_element_text(version) + seq!['>']
}

/// Settings XML with its first opening and first closing root tag removed,
/// then trimmed.
pub open spec fn stripped(version: (u32, u32), xml: Seq<char>) -> Seq<char> {
    trim(remove_first(remove_first(xml, open_tag(version)), close_tag(version)))
}

impl Session {
    /// A session that has not negotiated a version yet.
    pub fn new(config: Config) -> (r: Self)
        ensures
            r@ == (SessionView {
                config,
                version: (0, 0),
                state: EventType::NoEvent,
                last_event: EventType::NoEvent,
            }),
    {
        Session {
            config,
            version: (0, 0),
            state: EventType::NoEvent,
            last_event: EventType::NoEvent,
        }
    }

    pub fn config(&self) -> (r: &Config)
        ensures
            *r == self@.config,
    {
        &self.config
    }

    /// The protocol version actually negotiated.
    pub fn version(&self) -> (r: (u32, u32))
        ensures
            r == self@.version,
    {
        self.version
    }

    /// The most recent event QTM reported, including events observed while
    /// waiting for a command response.
    pub fn last_event(&self) -> (r: EventType)
        ensures
            r == self@.last_event,
    {
        self.last_event
    }

    /// QTM's state as the last state-changing event reported it.
    pub fn current_state(&self) -> (r: EventType)
        ensures
            r == self@.state,
    {
        self.state
    }

    /// Records the version QTM accepted.
    pub fn set_negotiated_version(&mut self, major: u32, minor: u32)
        ensures
            final(self)@ == (SessionView { version: (major, minor), ..old(self)@ }),
    {
        self.version = (major, minor);
    }

    /// The port to connect to for the configured byte order.
    pub fn rt_port(&self, base_port: u16) -> (r: u16)
        ensures
            r == rt_port_of(base_port, self@.config.byte_order),
    {
        match self.config.byte_order {
            ByteOrder::Little => base_port.saturating_add(1),
            ByteOrder::Big => base_port.saturating_add(2),
        }
    }

    /// Builds the ordered list of versions to try: the requested version
    /// first, then progressively older ones, skipping anything newer than or
    /// equal to what was asked for, down to `MIN_SUPPORTED_MINOR`, so that a
    /// QTM older than the documented floor fails cleanly.
    pub fn version_candidates(&self) -> (r: Vec<(u32, u32)>)
        ensures
            r@ == version_candidates_of(self@.config),
    {
        let (want_major, want_minor) = self.config.version;
        let mut out: Vec<(u32, u32)> = Vec::new();
        out.push((want_major, want_minor));
        if !self.config.negotiate_version {
            return out;
        }
        let (default_major, default_minor) = DEFAULT_VERSION;
        let ghost want = self.config.version;
        let mut minor: u32 = default_minor;
        while minor >= MIN_SUPPORTED_MINOR
            invariant
                MIN_SUPPORTED_MINOR - 1 <= minor <= DEFAULT_VERSION.1,
                want == (want_major, want_minor),
                default_major == DEFAULT_VERSION.0,
                default_minor == DEFAULT_VERSION.1,
                out@ == seq![want] + fallback_versions(want, DEFAULT_VERSION.1 as int, minor + 1),
            decreases minor,
        {
            let ghost before = out@;
            if !(want_major == default_major && minor >= want_minor) {
                out.push((default_major, minor));
            }
            proof {
                let f = fallback_versions(want, DEFAULT_VERSION.1 as int, minor as int);
                assert(out@ =~= seq![want] + f);
            }
            minor = minor - 1;
        }
        out
    }

    /// The settings XML root element name for the negotiated version, for
    /// example `QTM_Parameters_Ver_1.28`.
    pub fn parameters_element_name(&self) -> (r: String)
        ensures
            r@ == parameters_element_text(self@.version),
    {
        let mut s = String::new();
        push_str(&mut s, "QTM_Parameters_Ver_");
        push_decimal(&mut s, self.version.0 as u64);
        push_char(&mut s, '.');
        push_decimal(&mut s, self.version.1 as u64);
        assert(s@ =~= parameters_element_text(self@.version));
        s
    }

    /// Removes the version-specific `QTM_Parameters_Ver_X.Y` wrapper from
    /// settings XML, leaving a fragment ready to be sent back.
    pub fn strip_parameters_element(&self, xml: &str) -> (r: String)
        ensures
            r@ == stripped(self@.version, xml@),
    {
        let name = self.parameters_element_name();
        let mut open = String::new();
        push_char(&mut open, '<');
        push_str(&mut open, name.as_str());
        push_char(&mut open, '>');
        let mut close = String::new();
        push_str(&mut close, "</");
        push_str(&mut close, name.as_str());
        push_char(&mut close, '>');
        assert(open@ =~= open_tag(self@.version));
        assert(close@ =~= close_tag(self@.version));
        let h = chars_of(xml);
        let first = without_first(&h, &chars_of(open.as_str()));
        let second = without_first(&first, &chars_of(close.as_str()));
        let (a, b) = trim_bounds(&second, 0, second.len());
        assert(second@.subrange(0, second@.len() as int) =~= second@);
        string_from(&second, a, b)
    }

    /// Records what a packet read reports: an event becomes the last event,
    /// and the state too unless it only reports changed camera settings.
    pub fn observe(&mut self, packet: &Packet)
        ensures
            final(self)@ == observed(old(self)@, *packet),
    {
        match packet {
            Packet::Event(event) => {
                self.last_event = *event;
                if *event != EventType::CameraSettingsChanged {
                    self.state = *event;
                }
            },
            _ => {},
        }
    }

    /// Checks the size field of a packet header against the configured
    /// limits: it must cover at least the header and at most the largest
    /// packet accepted.
    pub fn packet_size(&self, header: &[u8]) -> (r: Result<usize>)
        requires
            header@.len() >= 4,
        ensures
            ({
                let size = u32_at(self@.config.byte_order, header@, 0) as usize;
                &&& size < PACKET_HEADER_SIZE ==> r == Err::<usize, Error>(Error::InvalidPacketSize(size))
                &&& PACKET_HEADER_SIZE <= size && size > self@.config.max_packet_size ==> r == Err::<
                    usize,
                    Error,
                >(Error::PacketTooLarge { size, limit: self@.config.max_packet_size })
                &&& PACKET_HEADER_SIZE <= size <= self@.config.max_packet_size ==> r == Ok::<
                    usize,
                    Error,
                >(size)
            }),
    {
        let order = self.config.byte_order;
        let size = order.u32([header[0], header[1], header[2], header[3]]) as usize;
        if size < PACKET_HEADER_SIZE {
            return Err(Error::InvalidPacketSize(size));
        }
        if size > self.config.max_packet_size {
            return Err(Error::PacketTooLarge { size, limit: self.config.max_packet_size });
        }
        Ok(size)
    }

    /// Decodes a complete packet in the connection's byte order and records
    /// any event it reports.
    pub fn accept(&mut self, buffer: &[u8]) -> (r: Result<Packet>)
        ensures
            r is Ok <==> packet_ok(buffer@, old(self)@.config.byte_order),
            r matches Ok(p) ==> packet_of(buffer@, old(self)@.config.byte_order, p) && final(self)@
                == observed(old(self)@, p),
            r is Err ==> final(self)@ == old(self)@,
    {
        let packet = Packet::decode(buffer, self.config.byte_order)?;
        self.observe(&packet);
        Ok(packet)
    }
}

/// Builds a socket error of kind `ConnectionAborted` with a message, with
/// `std::io::Error::new`. The contract claims only the error's kind, which
/// `std::io::Error::kind` reports as the one it was made with; a
/// `ConnectionAborted` error is none of the kinds the protocol tells apart.
#[verifier::external_body]
fn aborted_error(message: &str) -> (r: std::io::Error)
    ensures
        io_error_kind(r) == IoKind::Other,
{
    std::io::Error::new(std::io::ErrorKind::ConnectionAborted, message)
}

/// What a failed read of a packet header means. An idle socket yields
/// `NoMoreData` rather than an error, so a polling loop can treat "nothing
/// yet" as an ordinary outcome; a closed connection and any other failure
/// are I/O errors.
pub fn header_read_failure(kind: IoKind, e: std::io::Error) -> (r: Result<Packet>)
    ensures
        (kind == IoKind::TimedOut || kind == IoKind::WouldBlock) ==> r == Ok::<Packet, Error>(Packet::NoMoreData),
        kind == IoKind::UnexpectedEof ==> (r matches Err(Error::Io(x))
            && io_error_kind(x) == IoKind::Other),
        kind == IoKind::Other ==> r == Err::<Packet, Error>(Error::Io(e)),
{
    match kind {
        IoKind::TimedOut | IoKind::WouldBlock => Ok(Packet::NoMoreData),
        IoKind::UnexpectedEof => Err(Error::Io(aborted_error("connection closed by QTM"))),
        IoKind::Other => Err(Error::Io(e)),
    }
}

/// What a failed read of a packet header means, for a socket error: the
/// error's kind decides as `header_read_failure` says, so a read timeout is
/// an idle read, not an error.
pub fn header_read_error(e: std::io::Error) -> (r: Result<Packet>)
    ensures
        (io_error_kind(e) == IoKind::TimedOut || io_error_kind(e) == IoKind::WouldBlock) ==> r
            == Ok::<Packet, Error>(Packet::NoMoreData),
        io_error_kind(e) == IoKind::UnexpectedEof ==> (r matches Err(Error::Io(x))
            && io_error_kind(x) == IoKind::Other),
        io_error_kind(e) == IoKind::Other ==> r == Err::<Packet, Error>(Error::Io(e)),
{
    let kind = io_kind(&e);
    header_read_failure(kind, e)
}

/// What a failed read of a packet body means, for a socket error: the
/// error's kind decides as `body_read_failure` says.
pub fn body_read_error(e: std::io::Error, size: usize) -> (r: Error)
    ensures
        io_error_kind(e) != IoKind::Other ==> r == (Error::Truncated {
            expected: size,
            received: PACKET_HEADER_SIZE,
        }),
        io_error_kind(e) == IoKind::Other ==> r == Error::Io(e),
{
    let kind = io_kind(&e);
    body_read_failure(kind, e, size)
}

/// What a failed read of a packet body means. Once the header is consumed
/// the rest of the packet must arrive: a timeout or a closed connection
/// leaves the stream desynchronised, which is reported as `Truncated`.
pub fn body_read_failure(kind: IoKind, e: std::io::Error, size: usize) -> (r: Error)
    ensures
        kind != IoKind::Other ==> r == (Error::Truncated {
            expected: size,
            received: PACKET_HEADER_SIZE,
        }),
        kind == IoKind::Other ==> r == Error::Io(e),
{
    match kind {
        IoKind::Other => Error::Io(e),
        _ => Error::Truncated { expected: size, received: PACKET_HEADER_SIZE },
    }
}

/// No digit of a decimal rendering is `>`.
proof fn lemma_decimal_has_no_gt(n: nat)
    ensures
        forall|i: int| 0 <= i < decimal(n).len() ==> #[trigger] decimal(n)[i] != '>',
    decreases n,
{
    assert forall|d: int| 0 <= d < 10 implies #[trigger] digit_char(d) != '>' by {
        assert(digit_char(d) as u32 == 48 + d);
    }
    if n >= 10 {
        lemma_decimal_has_no_gt(n / 10);
        let s = decimal(n);
        assert(s == decimal(n / 10).push(digit_char((n % 10) as int)));
    }
}

/// Only the last character of a closing tag is `>`.
proof fn lemma_close_tag_gt(version: (u32, u32))
    ensures
        ({
            let c = close_tag(version);
            &&& c.len() >= 1
            &&& c[c.len() - 1] == '>'
            &&& forall|i: int| 0 <= i < c.len() - 1 ==> #[trigger] c[i] != '>'
        }),
{
    reveal_strlit("</");
    reveal_strlit("QTM_Parameters_Ver_");
    lemma_decimal_has_no_gt(version.0 as nat);
    lemma_decimal_has_no_gt(version.1 as nat);
    let c = close_tag(version);
    let a = decimal(version.0 as nat);
    let b = decimal(version.1 as nat);
    let head = "</"@ + "QTM_Parameters_Ver_"@;
    assert(c =~= head + a + seq!['.'] + b + seq!['>']);
    assert forall|i: int| 0 <= i < c.len() - 1 implies #[trigger] c[i] != '>' by {
        if i < head.len() {
        } else if i < head.len() + a.len() {
            assert(c[i] == a[i - head.len()]);
        } else if i == head.len() + a.len() {
        } else {
            assert(c[i] == b[i - head.len() - a.len() - 1]);
        }
    }
}

/// An occurrence at `i` with none from `j` up to it is the first one from
/// `j`.
proof fn lemma_first_occurrence_at(h: Seq<char>, p: Seq<char>, j: int, i: int)
    requires
        0 <= j <= i,
        occurs_at(h, p, i),
        forall|k: int| j <= k < i ==> !occurs_at(h, p, k),
    ensures
        first_occurrence_from(h, p, j) == Some(i),
    decreases i - j,
{
    if j < i {
        lemma_first_occurrence_at(h, p, j + 1, i);
    }
}

/// Stripping undoes wrapping: settings XML made of the opening root tag, a
/// fragment without a closing root tag, and the closing root tag strips to
/// the trimmed fragment.
pub proof fn lemma_strip_wrapped(version: (u32, u32), fragment: Seq<char>)
    requires
        first_occurrence_from(fragment, close_tag(version), 0) is None,
    ensures
        stripped(version, open_tag(version) + fragment + close_tag(version)) == trim(fragment),
{
    let o = open_tag(version);
    let c = close_tag(version);
    let h = o + fragment + c;
    assert(h.subrange(0, o.len() as int) =~= o);
    lemma_first_occurrence_at(h, o, 0, 0);
    let h2 = remove_first(h, o);
    assert(h2 =~= fragment + c);
    lemma_first_occurrence(fragment, c, 0);
    lemma_close_tag_gt(version);
    let n = fragment.len() as int;
    assert(h2.subrange(n, n + c.len()) =~= c);
    assert forall|k: int| 0 <= k < n implies !occurs_at(h2, c, k) by {
        if occurs_at(h2, c, k) {
            if k + c.len() <= n {
                assert(fragment.subrange(k, k + c.len()) =~= h2.subrange(k, k + c.len()));
                assert(occurs_at(fragment, c, k));
            } else {
                let last = c.len() - 1;
                assert(h2.subrange(k, k + c.len())[last] == c[last]);
                assert(h2[k + last] == c[k + last - n]);
            }
        }
    }
    lemma_first_occurrence_at(h2, c, 0, n);
    assert(remove_first(h2, c) =~= fragment);
}

/// The text the derived `Debug` implementation of `Packet` renders a packet
/// as: the variant's name and its fields.
pub uninterp spec fn packet_debug(p: Packet) -> Seq<char>;

/// Renders a packet with its derived `Debug` implementation, as
/// `format!("{:?}")` does. The contract claims only that the text is the one
/// named `packet_debug`.
#[verifier::external_body]
fn packet_debug_text(p: &Packet) -> (r: String)
    ensures
        r@ == packet_debug(*p),
{
    format!("{p:?}")
}

/// Judges the first packet QTM sends on a new connection: only the welcome
/// message lets the connection proceed, an error packet is QTM's error, and
/// anything else is an unexpected response to the handshake.
pub fn welcome_outcome(packet: Packet) -> (r: Result<()>)
    ensures
        r is Ok <==> (packet matches Packet::Command(m) && m@ == WELCOME_MESSAGE@),
        packet matches Packet::Error(m) ==> r == Err::<(), Error>(Error::Qtm(m)),
        !(packet is Error) && !(packet matches Packet::Command(m) && m@ == WELCOME_MESSAGE@) ==> (
        r matches Err(e) && e matches Error::UnexpectedResponse { command, got, expected }
            && command@ == "<welcome>"@ && got@ == packet_debug(packet) && expected@.len() == 1
            && expected@[0]@ == WELCOME_MESSAGE@),
{
    match packet {
        Packet::Command(message) => {
            if same_text(message.as_str(), WELCOME_MESSAGE) {
                return Ok(());
            }
            unexpected_welcome(Packet::Command(message))
        },
        Packet::Error(message) => Err(Error::Qtm(message)),
        other => unexpected_welcome(other),
    }
}

fn unexpected_welcome(packet: Packet) -> (r: Result<()>)
    ensures
        r matches Err(e) && e matches Error::UnexpectedResponse { command, got, expected }
            && command@ == "<welcome>"@ && got@ == packet_debug(packet) && expected@.len() == 1
            && expected@[0]@ == WELCOME_MESSAGE@,
{
    let got = packet_debug_text(&packet);
    let mut command = String::new();
    push_str(&mut command, "<welcome>");
    let mut welcome = String::new();
    push_str(&mut welcome, WELCOME_MESSAGE);
    let mut expected: Vec<String> = Vec::new();
    expected.push(welcome);
    Err(Error::UnexpectedResponse { command, got, expected })
}

/// While waiting for the answer to a state request, the first event is the
/// answer; anything else is skipped.
pub fn state_step(packet: &Packet) -> (r: Option<EventType>)
    ensures
        *packet matches Packet::Event(e) ==> r == Some(e),
        !(packet is Event) ==> r is None,
{
    match packet {
        Packet::Event(event) => Some(*event),
        _ => None,
    }
}

/// Version negotiation: the candidates of a configuration are tried in
/// order until QTM accepts one.
#[derive(Debug)]
pub struct Negotiation {
    candidates: Vec<(u32, u32)>,
    next: usize,
}

impl Negotiation {
    #[verifier::type_invariant]
    spec fn well_formed(self) -> bool {
        self.next <= self.candidates@.len()
    }

    /// The versions this negotiation tries, in order.
    pub closed spec fn candidates(&self) -> Seq<(u32, u32)> {
        self.candidates@
    }

    /// How many candidates QTM has refused so far.
    pub closed spec fn refused(&self) -> nat {
        self.next as nat
    }

    /// A negotiation over the candidates of the session's configuration.
    pub fn new(session: &Session) -> (r: Self)
        ensures
            r.candidates() == version_candidates_of(session@.config),
            r.refused() == 0,
    {
        Negotiation { candidates: session.version_candidates(), next: 0 }
    }

    /// The version to request now; `None` once every candidate was refused.
    pub fn current(&self) -> (r: Option<(u32, u32)>)
        ensures
            self.refused() <= self.candidates().len(),
            self.refused() < self.candidates().len() ==> r == Some(
                self.candidates()[self.refused() as int],
            ),
            self.refused() == self.candidates().len() ==> r is None,
    {
        proof {
            use_type_invariant(self);
        }
        if self.next < self.candidates.len() {
            Some(self.candidates[self.next])
        } else {
            None
        }
    }

    /// The command that requests the current version.
    pub fn next_command(&self) -> (r: Option<String>)
        ensures
            self.refused() < self.candidates().len() ==> (r matches Some(c) && c@ == request_text(
                Request::Version(
                    self.candidates()[self.refused() as int].0,
                    self.candidates()[self.refused() as int].1,
                ),
            )),
            self.refused() >= self.candidates().len() ==> r is None,
    {
        match self.current() {
            Some((major, minor)) => Some(Request::Version(major, minor).text()),
            None => None,
        }
    }

    /// Takes QTM's reply to the current request. An accepted version is
    /// returned; any refusal or failure moves on to the next candidate.
    pub fn on_reply(&mut self, reply: Result<String>) -> (r: Option<(u32, u32)>)
        ensures
            final(self).candidates() == old(self).candidates(),
            old(self).refused() >= old(self).candidates().len() ==> r is None
                && final(self).refused() == old(self).refused(),
            old(self).refused() < old(self).candidates().len() ==> ({
                let cur = old(self).candidates()[old(self).refused() as int];
                let accepted = reply matches Ok(s) && reply_accepted(
                    request_replies(Request::Version(cur.0, cur.1)),
                    s@,
                );
                &&& accepted ==> r == Some(cur) && final(self).refused() == old(self).refused()
                &&& !accepted ==> r is None && final(self).refused() == old(self).refused() + 1
            }),
    {
        proof {
            use_type_invariant(&*self);
        }
        if self.next >= self.candidates.len() {
            return None;
        }
        let (major, minor) = self.candidates[self.next];
        let accepted = match &reply {
            Ok(response) => Request::Version(major, minor).check(response.as_str()).is_ok(),
            Err(_) => false,
        };
        if accepted {
            Some((major, minor))
        } else {
            self.next = self.next + 1;
            None
        }
    }

    /// The error a negotiation ends with when QTM refused every candidate.
    pub fn into_error(self) -> (r: Error)
        ensures
            r matches Error::VersionNotSupported { tried } && tried@ == self.candidates(),
    {
        Error::VersionNotSupported { tried: self.candidates }
    }
}

} // verus!
