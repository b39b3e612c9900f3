//! A minimal client that connects to QTM's little-endian port and waits for
//! the welcome message, without negotiating a version. The socket is the
//! caller's; this module holds what the client makes of the bytes it reads.

use vstd::prelude::*;
use vstd::slice::slice_subrange;
use vstd::string::*;
use vstd::utf8::*;

use crate::cursor::{u32_at, ByteOrder};
use crate::packet::str_from_utf8;
use crate::protocol::WELCOME_MESSAGE;
use crate::text::{chars_of, decimal, nul_trimmed_end, push_str, trim_end_nuls};

verus! {

/// The port of QTM's little-endian listener.
pub const QTM_LITTLEENDIAN_PORT: &'static str = "22223";

/// The kind of a packet, by its wire code.
#[derive(Debug, Clone, Copy, PartialEq, Eq, Structural)]
pub enum PacketType {
    Error,
    Command,
    XML,
    Data,
    NoMoreData,
    C3DFile,
    Event,
    Discover,
    QTMFile,
    /// Code 9, and every code that names no packet kind.
    Empty,
}

/// The packet type a wire code names; codes past the known ones are `Empty`.
pub open spec fn packet_type_of(value: u32) -> PacketType {
    if value == 0 {
        PacketType::Error
    } else if value == 1 {
        PacketType::Command
    } else if value == 2 {
        PacketType::XML
    } else if value == 3 {
        PacketType::Data
    } else if value == 4 {
        PacketType::NoMoreData
    } else if value == 5 {
        PacketType::C3DFile
    } else if value == 6 {
        PacketType::Event
    } else if value == 7 {
        PacketType::Discover
    } else if value == 8 {
        PacketType::QTMFile
    } else {
        PacketType::Empty
    }
}

impl From<u32> for PacketType {
    fn from(value: u32) -> (r: Self) {
        match value {
            0 => PacketType::Error,
            1 => PacketType::Command,
            2 => PacketType::XML,
            3 => PacketType::Data,
            4 => PacketType::NoMoreData,
            5 => PacketType::C3DFile,
            6 => PacketType::Event,
            7 => PacketType::Discover,
            8 => PacketType::QTMFile,
            _ => PacketType::Empty,
        }
    }
}

impl vstd::std_specs::convert::FromSpecImpl<u32> for PacketType {
    open spec fn obeys_from_spec() -> bool {
        true
    }

    open spec fn from_spec(value: u32) -> Self {
        packet_type_of(value)
    }
}

/// The name each packet type is displayed by.
pub open spec fn packet_type_text(t: PacketType) -> Seq<char> {
    match t {
        PacketType::Error => "Error"@,
        PacketType::Command => "Command"@,
        PacketType::XML => "XML"@,
        PacketType::Data => "Data"@,
        PacketType::NoMoreData => "NoMoreData"@,
        PacketType::C3DFile => "C3DFile"@,
        PacketType::Event => "Event"@,
        PacketType::Discover => "Discover"@,
        PacketType::QTMFile => "QTMFile"@,
        PacketType::Empty => "None"@,
    }
}

impl PacketType {
    /// The packet type's name.
    pub fn to_string(&self) -> (r: String)
        ensures
            r@ == packet_type_text(*self),
    {
        let mut s = String::new();
        match self {
            PacketType::Error => push_str(&mut s, "Error"),
            PacketType::Command => push_str(&mut s, "Command"),
            PacketType::XML => push_str(&mut s, "XML"),
            PacketType::Data => push_str(&mut s, "Data"),
            PacketType::NoMoreData => push_str(&mut s, "NoMoreData"),
            PacketType::C3DFile => push_str(&mut s, "C3DFile"),
            PacketType::Event => push_str(&mut s, "Event"),
            PacketType::Discover => push_str(&mut s, "Discover"),
            PacketType::QTMFile => push_str(&mut s, "QTMFile"),
            PacketType::Empty => push_str(&mut s, "None"),
        }
        assert(s@ =~= packet_type_text(*self));
        s
    }
}

/// A packet as read: its size field, its type and the bytes after the
/// header.
#[derive(Debug, Clone, PartialEq, Eq)]
pub struct Packet {
    size: u32,
    packet_type: PacketType,
    data: Vec<u8>,
}

impl Packet {
    pub closed spec fn size_field(&self) -> u32 {
        self.size
    }

    pub closed spec fn kind(&self) -> PacketType {
        self.packet_type
    }

    pub closed spec fn payload(&self) -> Seq<u8> {
        self.data@
    }

    /// The size field of the header.
    pub fn size(&self) -> (r: u32)
        ensures
            r == self.size_field(),
    {
        self.size
    }

    /// The packet's type.
    pub fn packet_type(&self) -> (r: PacketType)
        ensures
            r == self.kind(),
    {
        self.packet_type
    }

    /// The bytes after the header.
    pub fn data(&self) -> (r: &Vec<u8>)
        ensures
            r@ == self.payload(),
    {
        &self.data
    }
}

/// The address the client connects to: the host and the little-endian port.
pub open spec fn connect_address_text(ip: Seq<char>) -> Seq<char> {
    ip + ":"@ + "22223"@
}

/// The address the client connects to for a host.
pub fn connect_address(ip: &str) -> (r: String)
    ensures
        r@ == connect_address_text(ip@),
{
    let mut s = String::new();
    push_str(&mut s, ip);
    push_str(&mut s, ":");
    push_str(&mut s, QTM_LITTLEENDIAN_PORT);
    proof {
        reveal_strlit("22223");
    }
    assert(s@ =~= connect_address_text(ip@));
    s
}

/// What a read returned after the header: the text of the reply.
pub open spec fn reply_text(buffer: Seq<u8>) -> Seq<char> {
    trim_end_nuls(decode_utf8(buffer.subrange(8, buffer.len() as int)))
}

/// What the client makes of the bytes one read returned: the welcome
/// message, with or without trailing NULs, becomes a packet carrying the
/// little-endian size and type fields and the bytes after the header;
/// anything else is no packet.
pub fn welcome_packet(buffer: &[u8]) -> (r: Option<Packet>)
    requires
        buffer@.len() >= 8,
        valid_utf8(buffer@.subrange(8, buffer@.len() as int)),
    ensures
        r is Some <==> reply_text(buffer@) == WELCOME_MESSAGE@,
        r matches Some(p) ==> p.size_field() == u32_at(ByteOrder::Little, buffer@, 0)
            && p.kind() == packet_type_of(u32_at(ByteOrder::Little, buffer@, 4)) && p.payload()
            == buffer@.subrange(8, buffer@.len() as int),
{
    let size = ByteOrder::Little.u32([buffer[0], buffer[1], buffer[2], buffer[3]]);
    let packet_type = PacketType::from(
        ByteOrder::Little.u32([buffer[4], buffer[5], buffer[6], buffer[7]]),
    );
    let body = slice_subrange(buffer, 8, buffer.len());
    let text = match str_from_utf8(body) {
        Ok(t) => t,
        Err(_) => {
            return None;
        },
    };
    let chars = chars_of(text);
    let end = nul_trimmed_end(&chars);
    let welcome = chars_of(WELCOME_MESSAGE);
    assert(body@ == buffer@.subrange(8, buffer@.len() as int));
    assert(chars@.take(end as int) == reply_text(buffer@));
    if end != welcome.len() {
        return None;
    }
    let mut i: usize = 0;
    while i < end
        invariant
            0 <= i <= end,
            end == welcome@.len(),
            end <= chars@.len(),
            chars@.take(end as int) == reply_text(buffer@),
            welcome@ == WELCOME_MESSAGE@,
            forall|k: int| 0 <= k < i ==> chars@[k] == welcome@[k],
        decreases end - i,
    {
        if chars[i] != welcome[i] {
            assert(chars@.take(end as int)[i as int] != welcome@[i as int]);
            assert(chars@.take(end as int) != welcome@);
            return None;
        }
        i = i + 1;
    }
    assert(chars@.take(end as int) =~= welcome@);
    let mut data: Vec<u8> = Vec::new();
    let mut k: usize = 0;
    while k < body.len()
        invariant
            0 <= k <= body@.len(),
            data@ == body@.take(k as int),
        decreases body@.len() - k,
    {
        data.push(body[k]);
        assert(data@ =~= body@.take(k + 1));
        k = k + 1;
    }
    assert(body@.take(body@.len() as int) =~= body@);
    Some(Packet { size, packet_type, data })
}

} // verus!
