//! Error types for the QTM real time protocol client.

use vstd::prelude::*;
use vstd::string::*;

use crate::commands::version_text;
use crate::text::{decimal, push_char, push_decimal, push_str};

verus! {

#[verifier::external_type_specification]
#[verifier::external_body]
pub struct ExIoError(std::io::Error);

#[verifier::external_type_specification]
#[verifier::external_body]
pub struct ExUtf8Error(std::str::Utf8Error);

/// Convenience alias for results produced by this crate.
pub type Result<T> = std::result::Result<T, Error>;

/// Everything that can go wrong talking to QTM.
///
/// Variants are deliberately specific so callers can react differently to, say,
/// a quiet socket versus a desynchronised stream, without matching on strings.
#[derive(Debug)]
pub enum Error {
    /// Underlying socket failure.
    Io(std::io::Error),
    /// An operation needing a live connection was attempted without one.
    NotConnected,
    /// Nothing arrived within the configured timeout.
    ///
    /// This is distinct from [`Packet::NoMoreData`](crate::Packet::NoMoreData),
    /// which a read returns when the socket is simply idle.
    Timeout,
    /// A packet header was read but its body never fully arrived.
    ///
    /// The stream is desynchronised at this point: some bytes of the packet have
    /// been consumed and the rest are still queued, so the next read would
    /// interpret payload bytes as a header. The connection must be rebuilt.
    Truncated { expected: usize, received: usize },
    /// A component payload ended before all its declared fields were present.
    ShortPacket { needed: usize, offset: usize, available: usize },
    /// The packet size field was smaller than the 8 byte header.
    InvalidPacketSize(usize),
    /// The packet size field exceeded the configured ceiling.
    PacketTooLarge { size: usize, limit: usize },
    /// QTM accepted none of the protocol versions this crate is willing to
    /// speak.
    VersionNotSupported { tried: Vec<(u32, u32)> },
    /// A command returned something other than one of its expected responses.
    UnexpectedResponse { command: String, got: String, expected: Vec<String> },
    /// A packet of the wrong kind arrived where a specific one was required.
    UnexpectedPacket { expected: &'static str, got: &'static str },
    /// QTM replied with an error packet.
    Qtm(String),
    /// A data frame was structurally invalid.
    MalformedFrame(String),
    /// A string field was not valid UTF-8.
    Utf8(std::str::Utf8Error),
    /// A caller-supplied argument was rejected before anything was sent.
    InvalidArgument(String),
}

/// The kinds of socket failure the protocol logic tells apart.
#[derive(Debug, Clone, Copy, PartialEq, Eq, Structural)]
pub enum IoKind {
    TimedOut,
    WouldBlock,
    UnexpectedEof,
    Other,
}

impl IoKind {
    /// True for the kinds a socket with a read timeout reports when nothing
    /// arrived in time.
    pub fn is_timeout(self) -> (r: bool)
        ensures
            r <==> (self == IoKind::TimedOut || self == IoKind::WouldBlock),
    {
        match self {
            IoKind::TimedOut | IoKind::WouldBlock => true,
            _ => false,
        }
    }
}

/// The kind `std::io::Error::kind` reports for a socket error, with the
/// three kinds the protocol reacts to told apart and every other kind folded
/// into `Other`. The kind is stored in the error value itself, so it depends
/// on that value alone.
pub uninterp spec fn io_error_kind(e: std::io::Error) -> IoKind;

/// Classifies a socket error by `std::io::Error::kind`, telling apart the
/// three kinds the protocol reacts to and folding every other kind into
/// `Other`. The contract claims only that the result is the error's kind,
/// named `io_error_kind`.
#[verifier::external_body]
pub(crate) fn io_kind(e: &std::io::Error) -> (r: IoKind)
    ensures
        r == io_error_kind(*e),
{
    match e.kind() {
        std::io::ErrorKind::TimedOut => IoKind::TimedOut,
        std::io::ErrorKind::WouldBlock => IoKind::WouldBlock,
        std::io::ErrorKind::UnexpectedEof => IoKind::UnexpectedEof,
        _ => IoKind::Other,
    }
}

impl Error {
    /// True when this error came from a socket read or write timing out.
    pub fn is_timeout(&self) -> (r: bool)
        ensures
            self is Timeout ==> r,
            !(self is Timeout) && !(self is Io) ==> !r,
            self matches Error::Io(e) ==> (r <==> (io_error_kind(*e) == IoKind::TimedOut
                || io_error_kind(*e) == IoKind::WouldBlock)),
    {
        match self {
            Error::Timeout => true,
            Error::Io(e) => io_kind(e).is_timeout(),
            _ => false,
        }
    }
}

impl From<std::io::Error> for Error {
    fn from(e: std::io::Error) -> (r: Self)
        ensures
            r == Error::Io(e),
    {
        Error::Io(e)
    }
}

impl vstd::std_specs::convert::FromSpecImpl<std::io::Error> for Error {
    open spec fn obeys_from_spec() -> bool {
        true
    }

    open spec fn from_spec(e: std::io::Error) -> Self {
        Error::Io(e)
    }
}

impl From<std::str::Utf8Error> for Error {
    fn from(e: std::str::Utf8Error) -> (r: Self)
        ensures
            r == Error::Utf8(e),
    {
        Error::Utf8(e)
    }
}

impl vstd::std_specs::convert::FromSpecImpl<std::str::Utf8Error> for Error {
    open spec fn obeys_from_spec() -> bool {
        true
    }

    open spec fn from_spec(e: std::str::Utf8Error) -> Self {
        Error::Utf8(e)
    }
}

/// The text `format!("{:?}")` renders a string as: quoted, with quotes,
/// backslashes and unprintable characters escaped.
pub uninterp spec fn debug_quoted(s: Seq<char>) -> Seq<char>;

/// Renders a string with `Debug`, as `format!("{:?}")` does.
#[verifier::external_body]
fn quoted(s: &str) -> (r: String)
    ensures
        r@ == debug_quoted(s@),
{
    format!("{s:?}")
}

/// Renders a socket error with its `Display` implementation.
///
/// Nothing is stated of the result: the text comes from the operating
/// system.
#[verifier::external_body]
fn io_error_text(e: &std::io::Error) -> String {
    format!("{e}")
}

/// The text the `Display` implementation of `std::str::Utf8Error` renders:
/// where the valid prefix ends and how long the invalid sequence is, both
/// stored in the error value itself.
pub uninterp spec fn utf8_error_display(e: std::str::Utf8Error) -> Seq<char>;

/// Renders a UTF-8 error with its `Display` implementation. The contract
/// claims only that the text is the one named `utf8_error_display`.
#[verifier::external_body]
fn utf8_error_text(e: &std::str::Utf8Error) -> (r: String)
    ensures
        r@ == utf8_error_display(*e),
{
    format!("{e}")
}

/// The versions of `v` as `M.m`, separated by `, `.
pub open spec fn versions_text(v: Seq<(u32, u32)>) -> Seq<char>
    decreases v.len(),
{
    if v.len() == 0 {
        Seq::empty()
    } else if v.len() == 1 {
        version_text(v[0].0, v[0].1)
    } else {
        versions_text(v.drop_last()) + ", "@ + version_text(v.last().0, v.last().1)
    }
}

/// The strings of `v`, each rendered with `Debug`, separated by `, `.
pub open spec fn quoted_list_text(v: Seq<Seq<char>>) -> Seq<char>
    decreases v.len(),
{
    if v.len() == 0 {
        Seq::empty()
    } else if v.len() == 1 {
        debug_quoted(v[0])
    } else {
        quoted_list_text(v.drop_last()) + ", "@ + debug_quoted(v.last())
    }
}

/// The message of an error, except the text of the underlying socket or
/// UTF-8 error, which follows the prefix given here.
pub open spec fn error_text(e: Error) -> Seq<char> {
    match e {
        Error::Io(_) => "io error: "@,
        Error::NotConnected => "not connected"@,
        Error::Timeout => "timed out waiting for a response"@,
        Error::Truncated { expected, received } => "packet truncated: expected "@ + decimal(
            expected as nat,
        ) + " bytes, received "@ + decimal(received as nat)
            + "; the stream is desynchronised and the connection must be reopened"@,
        Error::ShortPacket { needed, offset, available } => "short packet: needed "@ + decimal(
            needed as nat,
        ) + " bytes at offset "@ + decimal(offset as nat) + ", "@ + decimal(available as nat)
            + " available"@,
        Error::InvalidPacketSize(size) => "invalid packet size "@ + decimal(size as nat)
            + ", must be at least 8"@,
        Error::PacketTooLarge { size, limit } => "packet size "@ + decimal(size as nat)
            + " exceeds the configured limit "@ + decimal(limit as nat),
        Error::VersionNotSupported { tried } => "no mutually supported protocol version; tried "@
            + versions_text(tried@),
        Error::UnexpectedResponse { command, got, expected } => "command "@ + debug_quoted(
            command@,
        ) + " returned "@ + debug_quoted(got@) + ", expected one of ["@ + quoted_list_text(
            expected@.map_values(|x: String| x@),
        ) + "]"@,
        Error::UnexpectedPacket { expected, got } => "expected a "@ + expected@ + " packet, got "@
            + got@,
        Error::Qtm(m) => "qtm returned an error: "@ + m@,
        Error::MalformedFrame(m) => "malformed data frame: "@ + m@,
        Error::Utf8(_) => "invalid utf-8 in response: "@,
        Error::InvalidArgument(m) => "invalid argument: "@ + m@,
    }
}

fn push_versions(s: &mut String, v: &Vec<(u32, u32)>)
    ensures
        final(s)@ == old(s)@ + versions_text(v@),
{
    let ghost base = s@;
    let mut i: usize = 0;
    while i < v.len()
        invariant
            0 <= i <= v@.len(),
            s@ == base + versions_text(v@.take(i as int)),
        decreases v@.len() - i,
    {
        let ghost before = s@;
        if i > 0 {
            push_str(s, ", ");
        }
        let (major, minor) = v[i];
        push_decimal(s, major as u64);
        push_char(s, '.');
        push_decimal(s, minor as u64);
        proof {
            let t = v@.take(i + 1);
            assert(t.drop_last() =~= v@.take(i as int));
            assert(t.last() == (major, minor));
            assert(s@ =~= before + (if i > 0 {
                ", "@
            } else {
                Seq::empty()
            }) + version_text(major, minor));
            if i == 0 {
                assert(s@ =~= base + versions_text(t));
            } else {
                assert(s@ =~= base + versions_text(t));
            }
        }
        i = i + 1;
    }
    assert(v@.take(v@.len() as int) =~= v@);
}

fn push_quoted_list(s: &mut String, v: &Vec<String>)
    ensures
        final(s)@ == old(s)@ + quoted_list_text(v@.map_values(|x: String| x@)),
{
    let ghost base = s@;
    let ghost all = v@.map_values(|x: String| x@);
    let mut i: usize = 0;
    while i < v.len()
        invariant
            0 <= i <= v@.len(),
            all == v@.map_values(|x: String| x@),
            s@ == base + quoted_list_text(all.take(i as int)),
        decreases v@.len() - i,
    {
        let ghost before = s@;
        if i > 0 {
            push_str(s, ", ");
        }
        let q = quoted(v[i].as_str());
        push_str(s, q.as_str());
        proof {
            let t = all.take(i + 1);
            assert(t.drop_last() =~= all.take(i as int));
            assert(t.last() == v@[i as int]@);
            assert(s@ =~= base + quoted_list_text(t));
        }
        i = i + 1;
    }
    assert(all.take(v@.len() as int) =~= all);
}

impl Error {
    /// The error's message.
    pub fn to_string(&self) -> (r: String)
        ensures
            !(self is Io) && !(self is Utf8) ==> r@ == error_text(*self),
            self is Io ==> error_text(*self).is_prefix_of(r@),
            self matches Error::Utf8(e) ==> r@ == error_text(*self) + utf8_error_display(*e),
    {
        let mut s = String::new();
        match self {
            Error::Io(e) => {
                push_str(&mut s, "io error: ");
                let t = io_error_text(e);
                push_str(&mut s, t.as_str());
            },
            Error::NotConnected => push_str(&mut s, "not connected"),
            Error::Timeout => push_str(&mut s, "timed out waiting for a response"),
            Error::Truncated { expected, received } => {
                push_str(&mut s, "packet truncated: expected ");
                push_decimal(&mut s, *expected as u64);
                push_str(&mut s, " bytes, received ");
                push_decimal(&mut s, *received as u64);
                push_str(
                    &mut s,
                    "; the stream is desynchronised and the connection must be reopened",
                );
            },
            Error::ShortPacket { needed, offset, available } => {
                push_str(&mut s, "short packet: needed ");
                push_decimal(&mut s, *needed as u64);
                push_str(&mut s, " bytes at offset ");
                push_decimal(&mut s, *offset as u64);
                push_str(&mut s, ", ");
                push_decimal(&mut s, *available as u64);
                push_str(&mut s, " available");
            },
            Error::InvalidPacketSize(size) => {
                push_str(&mut s, "invalid packet size ");
                push_decimal(&mut s, *size as u64);
                push_str(&mut s, ", must be at least 8");
            },
            Error::PacketTooLarge { size, limit } => {
                push_str(&mut s, "packet size ");
                push_decimal(&mut s, *size as u64);
                push_str(&mut s, " exceeds the configured limit ");
                push_decimal(&mut s, *limit as u64);
            },
            Error::VersionNotSupported { tried } => {
                push_str(&mut s, "no mutually supported protocol version; tried ");
                push_versions(&mut s, tried);
            },
            Error::UnexpectedResponse { command, got, expected } => {
                push_str(&mut s, "command ");
                let c = quoted(command.as_str());
                push_str(&mut s, c.as_str());
                push_str(&mut s, " returned ");
                let g = quoted(got.as_str());
                push_str(&mut s, g.as_str());
                push_str(&mut s, ", expected one of [");
                push_quoted_list(&mut s, expected);
                push_str(&mut s, "]");
            },
            Error::UnexpectedPacket { expected, got } => {
                push_str(&mut s, "expected a ");
                push_str(&mut s, expected);
                push_str(&mut s, " packet, got ");
                push_str(&mut s, got);
            },
            Error::Qtm(m) => {
                push_str(&mut s, "qtm returned an error: ");
                push_str(&mut s, m.as_str());
            },
            Error::MalformedFrame(m) => {
                push_str(&mut s, "malformed data frame: ");
                push_str(&mut s, m.as_str());
            },
            Error::Utf8(e) => {
                push_str(&mut s, "invalid utf-8 in response: ");
                let t = utf8_error_text(e);
                push_str(&mut s, t.as_str());
                assert(s@ =~= error_text(*self) + utf8_error_display(*e));
            },
            Error::InvalidArgument(m) => {
                push_str(&mut s, "invalid argument: ");
                push_str(&mut s, m.as_str());
            },
        }
        assert(error_text(*self).is_prefix_of(s@));
        s
    }
}

} // verus!
