//! Packet framing and data frame decoding.

use vstd::prelude::*;
use vstd::slice::{slice_subrange, slice_to_vec};
use vstd::utf8::*;

use crate::components::{
    component_error_ok, component_kind, component_of, component_ok, Analog, Bodies6d, Bodies6dEuler, Component,
    ComponentType, EyeTrackers, Force, GazeVectors, Images, Markers2d, Markers3d, Skeletons,
    Timecodes,
};
use crate::cursor::{lemma_u32_bytes_roundtrip, spec_u32_bytes, u32_at, u64_at, ByteOrder, Cursor};
use crate::error::{Error, Result};
use crate::records::{first_unfit, lemma_first_unfit, lemma_records_unfit, record_offset, records_fit};
use crate::text::{decimal, push_decimal, push_str};

verus! {

/// Size of the size-and-type header every packet begins with.
pub const PACKET_HEADER_SIZE: usize = 8;

/// The wire tag identifying what a packet carries.
#[derive(Debug, Clone, Copy, PartialEq, Eq, Structural)]
pub enum PacketType {
    Error,
    Command,
    Xml,
    Data,
    NoMoreData,
    C3dFile,
    Event,
    Discover,
    QtmFile,
    Empty,
}

/// The wire code of each packet type.
pub open spec fn packet_code(t: PacketType) -> u32 {
    match t {
        PacketType::Error => 0,
        PacketType::Command => 1,
        PacketType::Xml => 2,
        PacketType::Data => 3,
        PacketType::NoMoreData => 4,
        PacketType::C3dFile => 5,
        PacketType::Event => 6,
        PacketType::Discover => 7,
        PacketType::QtmFile => 8,
        PacketType::Empty => 9,
    }
}

/// The packet type a wire code names, if any.
pub open spec fn packet_type_of(v: u32) -> Option<PacketType> {
    if v == 0 {
        Some(PacketType::Error)
    } else if v == 1 {
        Some(PacketType::Command)
    } else if v == 2 {
        Some(PacketType::Xml)
    } else if v == 3 {
        Some(PacketType::Data)
    } else if v == 4 {
        Some(PacketType::NoMoreData)
    } else if v == 5 {
        Some(PacketType::C3dFile)
    } else if v == 6 {
        Some(PacketType::Event)
    } else if v == 7 {
        Some(PacketType::Discover)
    } else if v == 8 {
        Some(PacketType::QtmFile)
    } else if v == 9 {
        Some(PacketType::Empty)
    } else {
        None
    }
}

impl PacketType {
    /// The wire code of this packet type.
    pub fn as_u32(self) -> (r: u32)
        ensures
            r == packet_code(self),
    {
        match self {
            PacketType::Error => 0,
            PacketType::Command => 1,
            PacketType::Xml => 2,
            PacketType::Data => 3,
            PacketType::NoMoreData => 4,
            PacketType::C3dFile => 5,
            PacketType::Event => 6,
            PacketType::Discover => 7,
            PacketType::QtmFile => 8,
            PacketType::Empty => 9,
        }
    }
}

impl TryFrom<u32> for PacketType {
    type Error = u32;

    fn try_from(value: u32) -> (r: std::result::Result<Self, u32>) {
        match value {
            0 => Ok(PacketType::Error),
            1 => Ok(PacketType::Command),
            2 => Ok(PacketType::Xml),
            3 => Ok(PacketType::Data),
            4 => Ok(PacketType::NoMoreData),
            5 => Ok(PacketType::C3dFile),
            6 => Ok(PacketType::Event),
            7 => Ok(PacketType::Discover),
            8 => Ok(PacketType::QtmFile),
            9 => Ok(PacketType::Empty),
            other => Err(other),
        }
    }
}

impl vstd::std_specs::convert::TryFromSpecImpl<u32> for PacketType {
    open spec fn obeys_try_from_spec() -> bool {
        true
    }

    open spec fn try_from_spec(v: u32) -> std::result::Result<Self, u32> {
        match packet_type_of(v) {
            Some(t) => Ok(t),
            None => Err(v),
        }
    }
}

/// State transitions and notifications QTM pushes asynchronously.
#[derive(Debug, Clone, Copy, PartialEq, Eq, Structural, Default)]
pub enum EventType {
    Connected,
    ConnectionClosed,
    CaptureStarted,
    CaptureStopped,
    /// Not used in protocol version 1.10 and later.
    CaptureFetchingFinished,
    CalibrationStarted,
    CalibrationStopped,
    RtFromFileStarted,
    RtFromFileStopped,
    WaitingForTrigger,
    CameraSettingsChanged,
    QtmShuttingDown,
    CaptureSaved,
    ReprocessingStarted,
    ReprocessingStopped,
    Trigger,
    #[default]
    NoEvent,
    Unknown(u8),
}

/// The event a wire code names.
pub open spec fn event_of(v: u8) -> EventType {
    if v == 1 {
        EventType::Connected
    } else if v == 2 {
        EventType::ConnectionClosed
    } else if v == 3 {
        EventType::CaptureStarted
    } else if v == 4 {
        EventType::CaptureStopped
    } else if v == 5 {
        EventType::CaptureFetchingFinished
    } else if v == 6 {
        EventType::CalibrationStarted
    } else if v == 7 {
        EventType::CalibrationStopped
    } else if v == 8 {
        EventType::RtFromFileStarted
    } else if v == 9 {
        EventType::RtFromFileStopped
    } else if v == 10 {
        EventType::WaitingForTrigger
    } else if v == 11 {
        EventType::CameraSettingsChanged
    } else if v == 12 {
        EventType::QtmShuttingDown
    } else if v == 13 {
        EventType::CaptureSaved
    } else if v == 14 {
        EventType::ReprocessingStarted
    } else if v == 15 {
        EventType::ReprocessingStopped
    } else if v == 16 {
        EventType::Trigger
    } else if v == 17 {
        EventType::NoEvent
    } else {
        EventType::Unknown(v)
    }
}

impl From<u8> for EventType {
    fn from(value: u8) -> (r: Self) {
        match value {
            1 => EventType::Connected,
            2 => EventType::ConnectionClosed,
            3 => EventType::CaptureStarted,
            4 => EventType::CaptureStopped,
            5 => EventType::CaptureFetchingFinished,
            6 => EventType::CalibrationStarted,
            7 => EventType::CalibrationStopped,
            8 => EventType::RtFromFileStarted,
            9 => EventType::RtFromFileStopped,
            10 => EventType::WaitingForTrigger,
            11 => EventType::CameraSettingsChanged,
            12 => EventType::QtmShuttingDown,
            13 => EventType::CaptureSaved,
            14 => EventType::ReprocessingStarted,
            15 => EventType::ReprocessingStopped,
            16 => EventType::Trigger,
            17 => EventType::NoEvent,
            other => EventType::Unknown(other),
        }
    }
}

impl vstd::std_specs::convert::FromSpecImpl<u8> for EventType {
    open spec fn obeys_from_spec() -> bool {
        true
    }

    open spec fn from_spec(v: u8) -> Self {
        event_of(v)
    }
}

/// The name an event is rendered with; an unknown event renders as
/// `Unknown(n)`.
pub open spec fn event_text(e: EventType) -> Seq<char> {
    match e {
        EventType::Connected => "Connected"@,
        EventType::ConnectionClosed => "ConnectionClosed"@,
        EventType::CaptureStarted => "CaptureStarted"@,
        EventType::CaptureStopped => "CaptureStopped"@,
        EventType::CaptureFetchingFinished => "CaptureFetchingFinished"@,
        EventType::CalibrationStarted => "CalibrationStarted"@,
        EventType::CalibrationStopped => "CalibrationStopped"@,
        EventType::RtFromFileStarted => "RtFromFileStarted"@,
        EventType::RtFromFileStopped => "RtFromFileStopped"@,
        EventType::WaitingForTrigger => "WaitingForTrigger"@,
        EventType::CameraSettingsChanged => "CameraSettingsChanged"@,
        EventType::QtmShuttingDown => "QtmShuttingDown"@,
        EventType::CaptureSaved => "CaptureSaved"@,
        EventType::ReprocessingStarted => "ReprocessingStarted"@,
        EventType::ReprocessingStopped => "ReprocessingStopped"@,
        EventType::Trigger => "Trigger"@,
        EventType::NoEvent => "None"@,
        EventType::Unknown(v) => "Unknown("@ + crate::text::decimal(v as nat).push(')'),
    }
}

impl EventType {
    /// The event's name, as it is displayed.
    pub fn to_string(&self) -> (r: String)
        ensures
            r@ == event_text(*self),
    {
        let mut s = String::new();
        let name = match self {
            EventType::Connected => "Connected",
            EventType::ConnectionClosed => "ConnectionClosed",
            EventType::CaptureStarted => "CaptureStarted",
            EventType::CaptureStopped => "CaptureStopped",
            EventType::CaptureFetchingFinished => "CaptureFetchingFinished",
            EventType::CalibrationStarted => "CalibrationStarted",
            EventType::CalibrationStopped => "CalibrationStopped",
            EventType::RtFromFileStarted => "RtFromFileStarted",
            EventType::RtFromFileStopped => "RtFromFileStopped",
            EventType::WaitingForTrigger => "WaitingForTrigger",
            EventType::CameraSettingsChanged => "CameraSettingsChanged",
            EventType::QtmShuttingDown => "QtmShuttingDown",
            EventType::CaptureSaved => "CaptureSaved",
            EventType::ReprocessingStarted => "ReprocessingStarted",
            EventType::ReprocessingStopped => "ReprocessingStopped",
            EventType::Trigger => "Trigger",
            EventType::NoEvent => "None",
            EventType::Unknown(v) => {
                push_str(&mut s, "Unknown(");
                push_decimal(&mut s, *v as u64);
                crate::text::push_char(&mut s, ')');
                assert(s@ =~= event_text(*self));
                return s;
            },
        };
        push_str(&mut s, name);
        assert(s@ =~= event_text(*self));
        s
    }
}

/// One data frame: a timestamp, a frame number and the components requested.
#[derive(Debug, Clone, PartialEq, Eq, Default)]
pub struct DataFrame {
    /// Capture timestamp in microseconds.
    pub timestamp: u64,
    pub frame_number: u32,
    pub components: Vec<Component>,
}

/// Where the component after one starting at `o` starts: its size field
/// counts its own 8 byte header.
pub open spec fn frame_component_next(order: ByteOrder, s: Seq<u8>) -> spec_fn(int) -> int {
    |o: int| o + u32_at(order, s, o)
}

/// The payload of the component starting at `o`, header excluded.
pub open spec fn frame_component_body(order: ByteOrder, s: Seq<u8>, o: int) -> Seq<u8> {
    s.subrange(o + 8, o + u32_at(order, s, o))
}

/// True when the component starting at `o` has a header within `s`, a size
/// that covers its header and lies within `s`, and a well-formed payload.
pub open spec fn frame_component_fits(order: ByteOrder, s: Seq<u8>) -> spec_fn(int) -> bool {
    |o: int|
        o + 8 <= s.len() && 8 <= u32_at(order, s, o) && u32_at(order, s, o) <= s.len() - o
            && component_ok(u32_at(order, s, o + 4), frame_component_body(order, s, o), order)
}

/// Where component `k` of a frame starts.
pub open spec fn frame_component_offset(order: ByteOrder, s: Seq<u8>, k: nat) -> int {
    record_offset(16, frame_component_next(order, s), k)
}

/// True when `s` is a well-formed data frame payload.
pub open spec fn frame_ok(order: ByteOrder, s: Seq<u8>) -> bool {
    &&& 16 <= s.len()
    &&& records_fit(
        16,
        frame_component_next(order, s),
        frame_component_fits(order, s),
        u32_at(order, s, 12) as nat,
    )
}

/// `f` is what the well-formed data frame payload `s` decodes to.
pub open spec fn frame_of(order: ByteOrder, s: Seq<u8>, f: DataFrame) -> bool {
    &&& f.timestamp == u64_at(order, s, 0)
    &&& f.frame_number == u32_at(order, s, 8)
    &&& f.components@.len() == u32_at(order, s, 12)
    &&& forall|k: int|
        0 <= k < f.components@.len() ==> component_of(
            u32_at(order, s, frame_component_offset(order, s, k as nat) + 4),
            frame_component_body(order, s, frame_component_offset(order, s, k as nat)),
            order,
            #[trigger] f.components@[k],
        )
}

/// Component `i` is the first of kind `kind` in `cs`.
pub open spec fn is_first_of(cs: Seq<Component>, kind: ComponentType, i: int) -> bool {
    &&& 0 <= i < cs.len()
    &&& component_kind(cs[i]) == Some(kind)
    &&& forall|j: int| 0 <= j < i ==> component_kind(#[trigger] cs[j]) != Some(kind)
}

/// `cs` holds a component of kind `kind`.
pub open spec fn has_kind(cs: Seq<Component>, kind: ComponentType) -> bool {
    exists|i: int| 0 <= i < cs.len() && component_kind(#[trigger] cs[i]) == Some(kind)
}

/// The wire codes of the unrecognised components in `cs`, in order.
pub open spec fn unknown_codes(cs: Seq<Component>) -> Seq<u32>
    decreases cs.len(),
{
    if cs.len() == 0 {
        Seq::empty()
    } else {
        let rest = unknown_codes(cs.drop_last());
        match cs.last() {
            Component::Unknown { component_type, .. } => rest.push(component_type),
            _ => rest,
        }
    }
}

/// The message for a frame shorter than its header.
pub open spec fn frame_short_text(have: nat) -> Seq<char> {
    "need 16 header bytes, have "@ + decimal(have)
}

/// The message for a component whose header runs past the frame.
pub open spec fn frame_header_text(index: nat) -> Seq<char> {
    "component "@ + decimal(index) + " header runs past the end of the frame"@
}

/// The message for a component whose size does not cover its header.
pub open spec fn frame_size_text(index: nat, size: nat) -> Seq<char> {
    "component "@ + decimal(index) + " declares an invalid size of "@ + decimal(size)
}

/// The message for a component that claims more bytes than remain.
pub open spec fn frame_overrun_text(index: nat, size: nat, remain: nat) -> Seq<char> {
    "component "@ + decimal(index) + " claims "@ + decimal(size) + " bytes, only "@ + decimal(
        remain,
    ) + " remain"@
}

/// The first component of a malformed frame that is not well formed.
pub open spec fn frame_first_bad(order: ByteOrder, s: Seq<u8>) -> nat {
    first_unfit(
        16,
        frame_component_next(order, s),
        frame_component_fits(order, s),
        u32_at(order, s, 12) as nat,
    )
}

/// What decoding a malformed frame reports: the frame's own checks, on its
/// first bad component, give a message; a component payload that fails to
/// decode gives that component's error, read from the start of its payload.
pub open spec fn frame_error_ok(order: ByteOrder, s: Seq<u8>, e: Error) -> bool {
    if s.len() < 16 {
        e is MalformedFrame && e->MalformedFrame_0@ == frame_short_text(s.len())
    } else {
        let k = frame_first_bad(order, s);
        let o = frame_component_offset(order, s, k);
        let size = u32_at(order, s, o);
        if o + 8 > s.len() {
            e is MalformedFrame && e->MalformedFrame_0@ == frame_header_text(k)
        } else if size < 8 {
            e is MalformedFrame && e->MalformedFrame_0@ == frame_size_text(k, size as nat)
        } else if size > s.len() - o {
            e is MalformedFrame && e->MalformedFrame_0@ == frame_overrun_text(
                k,
                size as nat,
                (s.len() - o) as nat,
            )
        } else {
            component_error_ok(u32_at(order, s, o + 4), frame_component_body(order, s, o), order, e)
        }
    }
}

fn frame_message_short(have: usize) -> (m: String)
    ensures
        m@ == frame_short_text(have as nat),
{
    let mut m = String::new();
    push_str(&mut m, "need 16 header bytes, have ");
    push_decimal(&mut m, have as u64);
    assert(m@ =~= frame_short_text(have as nat));
    m
}

fn frame_message_header(index: u32) -> (m: String)
    ensures
        m@ == frame_header_text(index as nat),
{
    let mut m = String::new();
    push_str(&mut m, "component ");
    push_decimal(&mut m, index as u64);
    push_str(&mut m, " header runs past the end of the frame");
    assert(m@ =~= frame_header_text(index as nat));
    m
}

fn frame_message_size(index: u32, size: usize) -> (m: String)
    ensures
        m@ == frame_size_text(index as nat, size as nat),
{
    let mut m = String::new();
    push_str(&mut m, "component ");
    push_decimal(&mut m, index as u64);
    push_str(&mut m, " declares an invalid size of ");
    push_decimal(&mut m, size as u64);
    assert(m@ =~= frame_size_text(index as nat, size as nat));
    m
}

fn frame_message_overrun(index: u32, size: usize, remain: usize) -> (m: String)
    ensures
        m@ == frame_overrun_text(index as nat, size as nat, remain as nat),
{
    let mut m = String::new();
    push_str(&mut m, "component ");
    push_decimal(&mut m, index as u64);
    push_str(&mut m, " claims ");
    push_decimal(&mut m, size as u64);
    push_str(&mut m, " bytes, only ");
    push_decimal(&mut m, remain as u64);
    push_str(&mut m, " remain");
    assert(m@ =~= frame_overrun_text(index as nat, size as nat, remain as nat));
    m
}

impl DataFrame {
    /// Timestamp and frame number, plus the component count.
    pub const HEADER_BYTES: usize = 16;

    /// Decodes a data frame payload, i.e. everything after the packet header.
    ///
    /// Each component parser receives exactly its own slice rather than
    /// everything to the end of the buffer, so a wrong count in one component
    /// cannot make its parser wander into the next component's bytes.
    ///
    /// A component type this crate does not recognise is preserved as
    /// [`Component::Unknown`] rather than failing the frame, so a client keeps
    /// working when QTM starts sending something new.
    pub fn decode(payload: &[u8], order: ByteOrder) -> (r: Result<Self>)
        ensures
            r is Ok <==> frame_ok(order, payload@),
            r matches Ok(f) ==> frame_of(order, payload@, f),
            r matches Err(e) ==> frame_error_ok(order, payload@, e),
    {
        let ghost s = payload@;
        if payload.len() < Self::HEADER_BYTES {
            return Err(Error::MalformedFrame(frame_message_short(payload.len())));
        }
        let mut c = Cursor::new(payload, order);
        let timestamp = match c.u64() {
            Ok(v) => v,
            Err(e) => return Err(e),
        };
        let frame_number = match c.u32() {
            Ok(v) => v,
            Err(e) => return Err(e),
        };
        let component_count = match c.u32() {
            Ok(v) => v,
            Err(e) => return Err(e),
        };
        let ghost next = frame_component_next(order, s);
        let ghost fits = frame_component_fits(order, s);

        let capacity = if component_count < 64 {
            component_count
        } else {
            64
        };
        let mut components: Vec<Component> = Vec::with_capacity(capacity as usize);
        let mut pos: usize = Self::HEADER_BYTES;
        let mut index: u32 = 0;
        while index < component_count
            invariant
                0 <= index <= component_count,
                s == payload@,
                s.len() >= 16,
                component_count == u32_at(order, s, 12),
                next == frame_component_next(order, s),
                fits == frame_component_fits(order, s),
                pos == record_offset(16, next, index as nat),
                16 <= pos <= s.len(),
                records_fit(16, next, fits, index as nat),
                components@.len() == index,
                forall|k: int|
                    0 <= k < index ==> component_of(
                        u32_at(order, s, frame_component_offset(order, s, k as nat) + 4),
                        frame_component_body(order, s, frame_component_offset(order, s, k as nat)),
                        order,
                        #[trigger] components@[k],
                    ),
            decreases component_count - index,
        {
            if payload.len() - pos < PACKET_HEADER_SIZE {
                proof {
                    assert(!fits(pos as int));
                    lemma_records_unfit(16, next, fits, component_count as nat, index as nat);
                    lemma_first_unfit(16, next, fits, component_count as nat, index as nat);
                }
                return Err(Error::MalformedFrame(frame_message_header(index)));
            }
            let size = order.u32([payload[pos], payload[pos + 1], payload[pos + 2], payload[pos + 3]])
                as usize;
            let component_type = order.u32(
                [payload[pos + 4], payload[pos + 5], payload[pos + 6], payload[pos + 7]],
            );
            // A zero or undersized length would never advance the cursor.
            if size < PACKET_HEADER_SIZE {
                proof {
                    assert(!fits(pos as int));
                    lemma_records_unfit(16, next, fits, component_count as nat, index as nat);
                    lemma_first_unfit(16, next, fits, component_count as nat, index as nat);
                }
                return Err(Error::MalformedFrame(frame_message_size(index, size)));
            }
            if size > payload.len() - pos {
                proof {
                    assert(!fits(pos as int));
                    lemma_records_unfit(16, next, fits, component_count as nat, index as nat);
                    lemma_first_unfit(16, next, fits, component_count as nat, index as nat);
                }
                return Err(
                    Error::MalformedFrame(frame_message_overrun(index, size, payload.len() - pos)),
                );
            }
            let body = slice_subrange(payload, pos + PACKET_HEADER_SIZE, pos + size);
            assert(body@ == frame_component_body(order, s, pos as int));
            match Component::decode(component_type, body, order) {
                Ok(component) => {
                    components.push(component);
                },
                Err(e) => {
                    proof {
                        assert(!fits(pos as int));
                        lemma_records_unfit(16, next, fits, component_count as nat, index as nat);
                        lemma_first_unfit(16, next, fits, component_count as nat, index as nat);
                    }
                    return Err(e);
                },
            }
            proof {
                assert(records_fit(16, next, fits, (index + 1) as nat));
            }
            pos = pos + size;
            index = index + 1;
        }

        Ok(DataFrame { timestamp, frame_number, components })
    }

    /// Returns the first component matching `kind`, if the frame carries one.
    pub fn component(&self, kind: ComponentType) -> (r: Option<&Component>)
        ensures
            r is Some <==> has_kind(self.components@, kind),
            r matches Some(c) ==> exists|i: int|
                is_first_of(self.components@, kind, i) && #[trigger] self.components@[i] == *c,
    {
        let mut i: usize = 0;
        while i < self.components.len()
            invariant
                0 <= i <= self.components@.len(),
                forall|j: int|
                    0 <= j < i ==> component_kind(#[trigger] self.components@[j]) != Some(kind),
            decreases self.components@.len() - i,
        {
            let c = &self.components[i];
            if c.component_type() == Some(kind) {
                assert(is_first_of(self.components@, kind, i as int));
                return Some(c);
            }
            i = i + 1;
        }
        None
    }

    /// Component types present in the frame that this crate could not decode.
    pub fn unknown_component_types(&self) -> (r: Vec<u32>)
        ensures
            r@ == unknown_codes(self.components@),
    {
        let mut out: Vec<u32> = Vec::new();
        let mut i: usize = 0;
        while i < self.components.len()
            invariant
                0 <= i <= self.components@.len(),
                out@ == unknown_codes(self.components@.take(i as int)),
            decreases self.components@.len() - i,
        {
            proof {
                assert(self.components@.take(i + 1).drop_last() =~= self.components@.take(
                    i as int,
                ));
            }
            match &self.components[i] {
                Component::Unknown { component_type, .. } => out.push(*component_type),
                _ => {},
            }
            i = i + 1;
        }
        assert(self.components@.take(i as int) =~= self.components@);
        out
    }

    /// Labelled 3D markers, if the frame carries them.
    pub fn markers_3d(&self) -> (r: Option<&Markers3d>)
        ensures
            r is Some <==> has_kind(self.components@, ComponentType::Markers3d),
            r matches Some(v) ==> exists|i: int|
                is_first_of(self.components@, ComponentType::Markers3d, i)
                    && #[trigger] self.components@[i] == Component::Markers3d(*v),
    {
        match self.component(ComponentType::Markers3d) {
            Some(Component::Markers3d(v)) => Some(v),
            _ => None,
        }
    }

    /// Labelled 3D markers with residuals, if present.
    pub fn markers_3d_residual(&self) -> (r: Option<&Markers3d>)
        ensures
            r is Some <==> has_kind(self.components@, ComponentType::Markers3dResidual),
            r matches Some(v) ==> exists|i: int|
                is_first_of(self.components@, ComponentType::Markers3dResidual, i)
                    && #[trigger] self.components@[i] == Component::Markers3dResidual(*v),
    {
        match self.component(ComponentType::Markers3dResidual) {
            Some(Component::Markers3dResidual(v)) => Some(v),
            _ => None,
        }
    }

    /// Unlabelled 3D markers, if present.
    pub fn markers_3d_no_labels(&self) -> (r: Option<&Markers3d>)
        ensures
            r is Some <==> has_kind(self.components@, ComponentType::Markers3dNoLabels),
            r matches Some(v) ==> exists|i: int|
                is_first_of(self.components@, ComponentType::Markers3dNoLabels, i)
                    && #[trigger] self.components@[i] == Component::Markers3dNoLabels(*v),
    {
        match self.component(ComponentType::Markers3dNoLabels) {
            Some(Component::Markers3dNoLabels(v)) => Some(v),
            _ => None,
        }
    }

    /// 6DOF bodies as rotation matrices, if present.
    pub fn bodies_6d(&self) -> (r: Option<&Bodies6d>)
        ensures
            r is Some <==> has_kind(self.components@, ComponentType::Bodies6d),
            r matches Some(v) ==> exists|i: int|
                is_first_of(self.components@, ComponentType::Bodies6d, i)
                    && #[trigger] self.components@[i] == Component::Bodies6d(*v),
    {
        match self.component(ComponentType::Bodies6d) {
            Some(Component::Bodies6d(v)) => Some(v),
            _ => None,
        }
    }

    /// 6DOF bodies as Euler angles, if present.
    pub fn bodies_6d_euler(&self) -> (r: Option<&Bodies6dEuler>)
        ensures
            r is Some <==> has_kind(self.components@, ComponentType::Bodies6dEuler),
            r matches Some(v) ==> exists|i: int|
                is_first_of(self.components@, ComponentType::Bodies6dEuler, i)
                    && #[trigger] self.components@[i] == Component::Bodies6dEuler(*v),
    {
        match self.component(ComponentType::Bodies6dEuler) {
            Some(Component::Bodies6dEuler(v)) => Some(v),
            _ => None,
        }
    }

    /// Per-camera 2D markers, if present.
    pub fn markers_2d(&self) -> (r: Option<&Markers2d>)
        ensures
            r is Some <==> has_kind(self.components@, ComponentType::Markers2d),
            r matches Some(v) ==> exists|i: int|
                is_first_of(self.components@, ComponentType::Markers2d, i)
                    && #[trigger] self.components@[i] == Component::Markers2d(*v),
    {
        match self.component(ComponentType::Markers2d) {
            Some(Component::Markers2d(v)) => Some(v),
            _ => None,
        }
    }

    /// Analog samples, if present.
    pub fn analog(&self) -> (r: Option<&Analog>)
        ensures
            r is Some <==> has_kind(self.components@, ComponentType::Analog),
            r matches Some(v) ==> exists|i: int|
                is_first_of(self.components@, ComponentType::Analog, i)
                    && #[trigger] self.components@[i] == Component::Analog(*v),
    {
        match self.component(ComponentType::Analog) {
            Some(Component::Analog(v)) => Some(v),
            _ => None,
        }
    }

    /// Force plate samples, if present.
    pub fn force(&self) -> (r: Option<&Force>)
        ensures
            r is Some <==> has_kind(self.components@, ComponentType::Force),
            r matches Some(v) ==> exists|i: int|
                is_first_of(self.components@, ComponentType::Force, i)
                    && #[trigger] self.components@[i] == Component::Force(*v),
    {
        match self.component(ComponentType::Force) {
            Some(Component::Force(v)) => Some(v),
            _ => None,
        }
    }

    /// Camera images, if present.
    pub fn images(&self) -> (r: Option<&Images>)
        ensures
            r is Some <==> has_kind(self.components@, ComponentType::Image),
            r matches Some(v) ==> exists|i: int|
                is_first_of(self.components@, ComponentType::Image, i)
                    && #[trigger] self.components@[i] == Component::Image(*v),
    {
        match self.component(ComponentType::Image) {
            Some(Component::Image(v)) => Some(v),
            _ => None,
        }
    }

    /// Gaze vectors, if present.
    pub fn gaze_vectors(&self) -> (r: Option<&GazeVectors>)
        ensures
            r is Some <==> has_kind(self.components@, ComponentType::GazeVector),
            r matches Some(v) ==> exists|i: int|
                is_first_of(self.components@, ComponentType::GazeVector, i)
                    && #[trigger] self.components@[i] == Component::GazeVector(*v),
    {
        match self.component(ComponentType::GazeVector) {
            Some(Component::GazeVector(v)) => Some(v),
            _ => None,
        }
    }

    /// Eye tracker samples, if present.
    pub fn eye_trackers(&self) -> (r: Option<&EyeTrackers>)
        ensures
            r is Some <==> has_kind(self.components@, ComponentType::EyeTracker),
            r matches Some(v) ==> exists|i: int|
                is_first_of(self.components@, ComponentType::EyeTracker, i)
                    && #[trigger] self.components@[i] == Component::EyeTracker(*v),
    {
        match self.component(ComponentType::EyeTracker) {
            Some(Component::EyeTracker(v)) => Some(v),
            _ => None,
        }
    }

    /// Timecodes, if present.
    pub fn timecodes(&self) -> (r: Option<&Timecodes>)
        ensures
            r is Some <==> has_kind(self.components@, ComponentType::Timecode),
            r matches Some(v) ==> exists|i: int|
                is_first_of(self.components@, ComponentType::Timecode, i)
                    && #[trigger] self.components@[i] == Component::Timecode(*v),
    {
        match self.component(ComponentType::Timecode) {
            Some(Component::Timecode(v)) => Some(v),
            _ => None,
        }
    }

    /// Skeletons, if present.
    pub fn skeletons(&self) -> (r: Option<&Skeletons>)
        ensures
            r is Some <==> has_kind(self.components@, ComponentType::Skeleton),
            r matches Some(v) ==> exists|i: int|
                is_first_of(self.components@, ComponentType::Skeleton, i)
                    && #[trigger] self.components@[i] == Component::Skeleton(*v),
    {
        match self.component(ComponentType::Skeleton) {
            Some(Component::Skeleton(v)) => Some(v),
            _ => None,
        }
    }
}

/// A decoded packet.
///
/// Modelling this as an enum rather than a struct with one field per packet
/// kind means a caller cannot read a field that was never populated.
#[derive(Debug, Clone, PartialEq, Eq)]
pub enum Packet {
    /// QTM reported an error.
    Error(String),
    /// A command response.
    Command(String),
    /// Settings XML.
    Xml(String),
    /// A data frame.
    Data(DataFrame),
    /// The socket was idle for the whole read timeout, or QTM signalled the end
    /// of a finite stream.
    NoMoreData,
    /// A C3D file transfer.
    C3dFile(Vec<u8>),
    /// An asynchronous event.
    Event(EventType),
    /// A discovery response.
    Discover(Vec<u8>),
    /// A QTM file transfer.
    QtmFile(Vec<u8>),
    /// An empty or unrecognised packet.
    Empty,
}

/// The short name of each packet kind.
pub open spec fn packet_kind_name(p: Packet) -> Seq<char> {
    match p {
        Packet::Error(_) => "error"@,
        Packet::Command(_) => "command"@,
        Packet::Xml(_) => "xml"@,
        Packet::Data(_) => "data"@,
        Packet::NoMoreData => "no-more-data"@,
        Packet::C3dFile(_) => "c3d-file"@,
        Packet::Event(_) => "event"@,
        Packet::Discover(_) => "discover"@,
        Packet::QtmFile(_) => "qtm-file"@,
        Packet::Empty => "none"@,
    }
}

/// Where the first NUL byte of `s` is, or its length when it has none.
pub open spec fn first_nul(s: Seq<u8>) -> nat
    decreases s.len(),
{
    if s.len() == 0 {
        0
    } else if s[0] == 0 {
        0
    } else {
        1 + first_nul(s.drop_first())
    }
}

/// The bytes of a string field: everything before the first NUL.
pub open spec fn string_field(s: Seq<u8>) -> Seq<u8> {
    s.take(first_nul(s) as int)
}

/// `n` is where the first NUL byte of `s` is, or its length when it has none.
pub proof fn lemma_first_nul(s: Seq<u8>, n: int)
    requires
        0 <= n <= s.len(),
        n < s.len() ==> s[n] == 0,
        forall|j: int| 0 <= j < n ==> s[j] != 0,
    ensures
        first_nul(s) == n,
    decreases s.len(),
{
    if s.len() > 0 && n > 0 {
        assert forall|j: int| 0 <= j < n - 1 implies s.drop_first()[j] != 0 by {
            assert(s[j + 1] != 0);
        }
        lemma_first_nul(s.drop_first(), n - 1);
    }
}

/// Decodes a null-terminated string field.
///
/// The field ends at its first NUL: the terminator, and anything after it, is
/// dropped before the UTF-8 check so a well-formed response is not rejected
/// because of its terminator.
pub fn decode_string(payload: &[u8]) -> (r: Result<String>)
    ensures
        r is Ok <==> valid_utf8(string_field(payload@)),
        r matches Ok(v) ==> v@ == decode_utf8(string_field(payload@)),
        r matches Err(e) ==> e == Error::Utf8(utf8_error_of(string_field(payload@))),
{
    let mut end: usize = 0;
    while end < payload.len() && payload[end] != 0
        invariant
            0 <= end <= payload@.len(),
            forall|j: int| 0 <= j < end ==> payload@[j] != 0,
        decreases payload@.len() - end,
    {
        end = end + 1;
    }
    proof {
        lemma_first_nul(payload@, end as int);
    }
    let field = slice_subrange(payload, 0, end);
    assert(field@ =~= string_field(payload@));
    match str_from_utf8(field) {
        Ok(text) => Ok(text.to_string()),
        Err(e) => Err(Error::Utf8(e)),
    }
}

/// The error `std::str::from_utf8` reports for bytes that are not UTF-8:
/// where their valid prefix ends and how long the invalid sequence is, both
/// functions of the bytes alone.
pub uninterp spec fn utf8_error_of(bytes: Seq<u8>) -> std::str::Utf8Error;

/// Checks that `bytes` are UTF-8 and views them as a string slice, as
/// `std::str::from_utf8` does: it succeeds exactly when the bytes are valid
/// UTF-8, and the slice then holds the characters they encode; otherwise
/// the error is the one named `utf8_error_of`.
#[verifier::external_body]
pub(crate) fn str_from_utf8(bytes: &[u8]) -> (r: std::result::Result<&str, std::str::Utf8Error>)
    ensures
        r is Ok <==> valid_utf8(bytes@),
        r matches Ok(s) ==> s@ == decode_utf8(bytes@),
        r matches Err(e) ==> e == utf8_error_of(bytes@),
{
    std::str::from_utf8(bytes)
}

/// True when `b` is a well-formed packet.
pub open spec fn packet_ok(b: Seq<u8>, order: ByteOrder) -> bool {
    let payload = b.subrange(8, b.len() as int);
    &&& 8 <= b.len()
    &&& match packet_type_of(u32_at(order, b, 4)) {
        Some(PacketType::Error) => valid_utf8(string_field(payload)),
        Some(PacketType::Command) => valid_utf8(string_field(payload)),
        Some(PacketType::Xml) => valid_utf8(string_field(payload)),
        Some(PacketType::Data) => frame_ok(order, payload),
        Some(PacketType::Event) => payload.len() > 0,
        _ => true,
    }
}

/// `p` is what the well-formed packet `b` decodes to.
pub open spec fn packet_of(b: Seq<u8>, order: ByteOrder, p: Packet) -> bool {
    let payload = b.subrange(8, b.len() as int);
    match packet_type_of(u32_at(order, b, 4)) {
        None => p is Empty,
        Some(t) => match t {
            PacketType::Error => p matches Packet::Error(v) && v@ == decode_utf8(
                string_field(payload),
            ),
            PacketType::Command => p matches Packet::Command(v) && v@ == decode_utf8(
                string_field(payload),
            ),
            PacketType::Xml => p matches Packet::Xml(v) && v@ == decode_utf8(string_field(payload)),
            PacketType::Data => p matches Packet::Data(f) && frame_of(order, payload, f),
            PacketType::NoMoreData => p is NoMoreData,
            PacketType::C3dFile => p matches Packet::C3dFile(v) && v@ == payload,
            PacketType::Event => p == Packet::Event(event_of(payload[0])),
            PacketType::Discover => p matches Packet::Discover(v) && v@ == payload,
            PacketType::QtmFile => p matches Packet::QtmFile(v) && v@ == payload,
            PacketType::Empty => p is Empty,
        },
    }
}

impl Packet {
    /// A short human-readable name, used in error messages.
    pub fn kind_name(&self) -> (r: &'static str)
        ensures
            r@ == packet_kind_name(*self),
    {
        match self {
            Packet::Error(_) => "error",
            Packet::Command(_) => "command",
            Packet::Xml(_) => "xml",
            Packet::Data(_) => "data",
            Packet::NoMoreData => "no-more-data",
            Packet::C3dFile(_) => "c3d-file",
            Packet::Event(_) => "event",
            Packet::Discover(_) => "discover",
            Packet::QtmFile(_) => "qtm-file",
            Packet::Empty => "none",
        }
    }

    /// True when the socket produced nothing within the read timeout.
    pub fn is_end_of_data(&self) -> (r: bool)
        ensures
            r <==> self is NoMoreData,
    {
        match self {
            Packet::NoMoreData => true,
            _ => false,
        }
    }

    /// The data frame, if this is a data packet.
    pub fn data(&self) -> (r: Option<&DataFrame>)
        ensures
            r matches Some(f) ==> *self == Packet::Data(*f),
            r is None <==> !(self is Data),
    {
        match self {
            Packet::Data(frame) => Some(frame),
            _ => None,
        }
    }

    /// Decodes a complete packet, header included.
    ///
    /// Exposed so callers can decode packets received over a transport this
    /// crate does not manage.
    pub fn decode(buffer: &[u8], order: ByteOrder) -> (r: Result<Packet>)
        ensures
            r is Ok <==> packet_ok(buffer@, order),
            r matches Ok(p) ==> packet_of(buffer@, order, p),
            buffer@.len() < 8 ==> (r matches Err(e) && e == Error::InvalidPacketSize(
                buffer@.len() as usize,
            )),
            buffer@.len() >= 8 ==> ({
                let payload = buffer@.subrange(8, buffer@.len() as int);
                match packet_type_of(u32_at(order, buffer@, 4)) {
                    Some(PacketType::Error) | Some(PacketType::Command) | Some(PacketType::Xml) => (r is Err
                        ==> (r matches Err(e) && e == Error::Utf8(utf8_error_of(string_field(payload))))),
                    Some(PacketType::Data) => (r is Err ==> (r matches Err(e) && frame_error_ok(
                        order,
                        payload,
                        e,
                    ))),
                    Some(PacketType::Event) => (r is Err ==> (r matches Err(e) && e matches Error::MalformedFrame(m)
                        && m@ == "event packet has no payload"@)),
                    _ => r is Ok,
                }
            }),
    {
        if buffer.len() < PACKET_HEADER_SIZE {
            return Err(Error::InvalidPacketSize(buffer.len()));
        }
        let raw_type = order.u32([buffer[4], buffer[5], buffer[6], buffer[7]]);
        let payload = slice_subrange(buffer, PACKET_HEADER_SIZE, buffer.len());
        assert(payload@ == buffer@.subrange(8, buffer@.len() as int));

        let packet_type = match PacketType::try_from(raw_type) {
            Ok(t) => t,
            Err(_) => return Ok(Packet::Empty),
        };

        match packet_type {
            PacketType::Error => match decode_string(payload) {
                Ok(v) => Ok(Packet::Error(v)),
                Err(e) => Err(e),
            },
            PacketType::Command => match decode_string(payload) {
                Ok(v) => Ok(Packet::Command(v)),
                Err(e) => Err(e),
            },
            PacketType::Xml => match decode_string(payload) {
                Ok(v) => Ok(Packet::Xml(v)),
                Err(e) => Err(e),
            },
            PacketType::Data => match DataFrame::decode(payload, order) {
                Ok(f) => Ok(Packet::Data(f)),
                Err(e) => Err(e),
            },
            PacketType::NoMoreData => Ok(Packet::NoMoreData),
            // The payload of a file packet is the file content itself, starting
            // immediately after the packet header.
            PacketType::C3dFile => Ok(Packet::C3dFile(slice_to_vec(payload))),
            PacketType::QtmFile => Ok(Packet::QtmFile(slice_to_vec(payload))),
            PacketType::Event => {
                if payload.len() == 0 {
                    let mut m = String::new();
                    push_str(&mut m, "event packet has no payload");
                    return Err(Error::MalformedFrame(m));
                }
                Ok(Packet::Event(EventType::from(payload[0])))
            },
            PacketType::Discover => Ok(Packet::Discover(slice_to_vec(payload))),
            PacketType::Empty => Ok(Packet::Empty),
        }
    }
}

/// The bytes of a string packet: the 8 byte header, the text's UTF-8 bytes
/// and a terminating NUL. The size field counts the whole packet.
pub open spec fn string_packet_bytes(t: PacketType, text: Seq<char>, order: ByteOrder) -> Seq<u8> {
    let body = encode_utf8(text).push(0u8);
    spec_u32_bytes(order, (8 + body.len()) as u32) + spec_u32_bytes(order, packet_code(t)) + body
}

/// Frames a string as a packet of the given type.
///
/// The header is written in the connection's byte order; writing it always
/// little-endian would leave a big-endian connection able to receive but
/// never send.
pub fn encode_string_packet(text: &str, packet_type: PacketType, order: ByteOrder) -> (r: Vec<u8>)
    requires
        encode_utf8(text@).len() + 9 <= usize::MAX,
    ensures
        r@ == string_packet_bytes(packet_type, text@, order),
{
    let bytes = text.as_bytes();
    let size = PACKET_HEADER_SIZE + bytes.len() + 1;
    let mut out: Vec<u8> = Vec::with_capacity(size);
    let size_field = order.put_u32(size as u32);
    let type_field = order.put_u32(packet_type.as_u32());
    let mut i: usize = 0;
    while i < 4
        invariant
            0 <= i <= 4,
            out@ == size_field@.take(i as int),
        decreases 4 - i,
    {
        out.push(size_field[i]);
        proof {
            assert(out@ =~= size_field@.take(i + 1));
        }
        i = i + 1;
    }
    let mut i: usize = 0;
    while i < 4
        invariant
            0 <= i <= 4,
            out@ == size_field@ + type_field@.take(i as int),
            size_field@.len() == 4,
        decreases 4 - i,
    {
        out.push(type_field[i]);
        proof {
            assert(out@ =~= size_field@ + type_field@.take(i + 1));
        }
        i = i + 1;
    }
    let mut i: usize = 0;
    while i < bytes.len()
        invariant
            0 <= i <= bytes@.len(),
            out@ == size_field@ + type_field@ + bytes@.take(i as int),
            size_field@.len() == 4,
            type_field@.len() == 4,
        decreases bytes@.len() - i,
    {
        out.push(bytes[i]);
        proof {
            assert(out@ =~= size_field@ + type_field@ + bytes@.take(i + 1));
        }
        i = i + 1;
    }
    out.push(0);
    proof {
        assert(bytes@.take(bytes@.len() as int) =~= bytes@);
        assert(out@ =~= string_packet_bytes(packet_type, text@, order));
    }
    out
}

/// The UTF-8 encoding of a character that is not NUL holds no zero byte.
proof fn lemma_encode_scalar_nonzero(c: u32)
    requires
        c != 0,
    ensures
        forall|i: int|
            0 <= i < encode_scalar(c).len() ==> #[trigger] encode_scalar(c)[i] != 0,
{
    if has_width_1_encoding(c) {
        assert((c & 0x7F) as u8 != 0) by (bit_vector)
            requires
                c != 0,
                c <= 0x7F,
        ;
    } else {
        assert(0xC0u8 | ((c >> 6) & 0x1F) as u8 != 0) by (bit_vector);
        assert(0xE0u8 | ((c >> 12) & 0x0F) as u8 != 0) by (bit_vector);
        assert(0xF0u8 | ((c >> 18) & 0x7) as u8 != 0) by (bit_vector);
        assert(0x80u8 | (c & 0x3F) as u8 != 0) by (bit_vector);
        assert(0x80u8 | ((c >> 6) & 0x3F) as u8 != 0) by (bit_vector);
        assert(0x80u8 | ((c >> 12) & 0x3F) as u8 != 0) by (bit_vector);
    }
}

/// Text without NUL characters encodes to bytes without zero bytes.
proof fn lemma_encode_utf8_nonzero(text: Seq<char>)
    requires
        !text.contains('\0'),
    ensures
        forall|i: int| 0 <= i < encode_utf8(text).len() ==> #[trigger] encode_utf8(text)[i] != 0,
    decreases text.len(),
{
    if text.len() > 0 {
        assert(text[0] != '\0');
        assert(text[0] as u32 != 0) by {
            if text[0] as u32 == 0 {
                char_u32_cast(text[0], 0);
                assert((0u32 as char) == '\0');
            }
        }
        lemma_encode_scalar_nonzero(text[0] as u32);
        assert(!text.drop_first().contains('\0')) by {
            if text.drop_first().contains('\0') {
                let k = choose|k: int| 0 <= k < text.drop_first().len() && text.drop_first()[k] == '\0';
                assert(text[k + 1] == '\0');
            }
        }
        lemma_encode_utf8_nonzero(text.drop_first());
        let head = encode_scalar(text[0] as u32);
        let tail = encode_utf8(text.drop_first());
        assert(encode_utf8(text) == head + tail);
        assert forall|i: int| 0 <= i < encode_utf8(text).len() implies #[trigger] encode_utf8(
            text,
        )[i] != 0 by {
            if i < head.len() {
                assert(head[i] != 0);
            } else {
                assert(tail[i - head.len()] != 0);
            }
        }
    }
}

/// Decoding a framed string packet gives back the packet type and the text,
/// for any text without NUL characters: the framing a client sends is the
/// framing it reads.
pub proof fn lemma_string_packet_roundtrip(t: PacketType, text: Seq<char>, order: ByteOrder)
    requires
        t is Error || t is Command || t is Xml,
        !text.contains('\0'),
        encode_utf8(text).len() + 9 <= u32::MAX,
    ensures
        ({
            let b = string_packet_bytes(t, text, order);
            &&& u32_at(order, b, 0) == b.len()
            &&& packet_type_of(u32_at(order, b, 4)) == Some(t)
            &&& packet_ok(b, order)
            &&& forall|p: Packet|
                #[trigger] packet_of(b, order, p) ==> match t {
                    PacketType::Error => p matches Packet::Error(v) && v@ == text,
                    PacketType::Command => p matches Packet::Command(v) && v@ == text,
                    _ => p matches Packet::Xml(v) && v@ == text,
                }
        }),
{
    broadcast use encode_utf8_valid_utf8, encode_utf8_decode_utf8;

    let bytes = encode_utf8(text);
    let body = bytes.push(0u8);
    let b = string_packet_bytes(t, text, order);
    let size = (8 + body.len()) as u32;
    let h0 = spec_u32_bytes(order, size);
    let h1 = spec_u32_bytes(order, packet_code(t));
    lemma_u32_bytes_roundtrip(order, size);
    lemma_u32_bytes_roundtrip(order, packet_code(t));
    assert(b == h0 + h1 + body);
    assert(u32_at(order, b, 0) == u32_at(order, h0, 0));
    assert(u32_at(order, b, 4) == u32_at(order, h1, 0));
    let payload = b.subrange(8, b.len() as int);
    assert(payload =~= body);
    lemma_encode_utf8_nonzero(text);
    lemma_first_nul(body, bytes.len() as int);
    assert(string_field(payload) =~= bytes);
}

} // verus!
