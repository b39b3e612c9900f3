//! Timecode component.

use vstd::prelude::*;

use crate::cursor::{
    count_error, lemma_fields_shift, lemma_words_bytes_read, u32_at, words_bytes, ByteOrder, Cursor,
};
use crate::error::{Error, Result};
use crate::text::{decimal, push_char, push_decimal, push_padded, push_str, zero_padded};

verus! {

/// SMPTE timecode.
///
/// `sub_frame` counts camera frames within a single timecode frame and is what
/// makes the timecode usable above the timecode frequency.
#[derive(Debug, Clone, Copy, PartialEq, Eq, Structural, Default)]
pub struct SmpteTime {
    pub hours: u32,
    pub minutes: u32,
    pub seconds: u32,
    pub frames: u32,
    pub sub_frame: u32,
}

/// The SMPTE timecode packed in the low word of a timecode entry.
pub open spec fn smpte_of(low: u32) -> SmpteTime {
    SmpteTime {
        hours: low & 0x1F,
        minutes: (low >> 5) & 0x3F,
        seconds: (low >> 11) & 0x3F,
        frames: (low >> 17) & 0x1F,
        sub_frame: (low >> 22) & 0x1FF,
    }
}

/// `a` and `b` joined by `sep`.
pub open spec fn joined(a: Seq<char>, sep: char, b: Seq<char>) -> Seq<char> {
    a.push(sep) + b
}

/// The two-digit, zero-padded rendering of `n`.
pub open spec fn two_digits(n: u32) -> Seq<char> {
    zero_padded(decimal(n as nat), 2)
}

/// `HH:MM:SS:FF`, each field zero-padded to two digits.
pub open spec fn smpte_text(t: SmpteTime) -> Seq<char> {
    joined(
        joined(joined(two_digits(t.hours), ':', two_digits(t.minutes)), ':', two_digits(t.seconds)),
        ':',
        two_digits(t.frames),
    )
}

impl SmpteTime {
    pub fn decode(low: u32) -> (t: Self)
        ensures
            t == smpte_of(low),
    {
        SmpteTime {
            hours: low & 0x1F,
            minutes: (low >> 5) & 0x3F,
            seconds: (low >> 11) & 0x3F,
            frames: (low >> 17) & 0x1F,
            sub_frame: (low >> 22) & 0x1FF,
        }
    }

    /// Expresses `sub_frame` as a fraction of one timecode frame, returned as
    /// a numerator and a nonzero denominator.
    ///
    /// The fraction is zero when either frequency is zero or the capture
    /// frequency is below the timestamp frequency, since the ratio is
    /// meaningless there.
    pub fn sub_frame_fraction(&self, capture_frequency: u32, timestamp_frequency: u32) -> (r: (
        u32,
        u32,
    ))
        ensures
            r.1 > 0,
            (capture_frequency == 0 || timestamp_frequency == 0 || capture_frequency
                < timestamp_frequency) ==> r == (0u32, 1u32),
            !(capture_frequency == 0 || timestamp_frequency == 0 || capture_frequency
                < timestamp_frequency) ==> r == (self.sub_frame, (capture_frequency
                / timestamp_frequency) as u32),
    {
        if capture_frequency == 0 || timestamp_frequency == 0 || capture_frequency
            < timestamp_frequency {
            return (0, 1);
        }
        let sub_frames_per_frame = capture_frequency / timestamp_frequency;
        assert(sub_frames_per_frame > 0) by (nonlinear_arith)
            requires
                sub_frames_per_frame == capture_frequency / timestamp_frequency,
                capture_frequency >= timestamp_frequency,
                timestamp_frequency > 0,
        ;
        (self.sub_frame, sub_frames_per_frame)
    }

    /// `HH:MM:SS:FF`.
    pub fn to_string(&self) -> (r: String)
        ensures
            r@ == smpte_text(*self),
    {
        let mut s = String::new();
        push_padded(&mut s, self.hours as u64, 2);
        push_char(&mut s, ':');
        push_padded(&mut s, self.minutes as u64, 2);
        push_char(&mut s, ':');
        push_padded(&mut s, self.seconds as u64, 2);
        push_char(&mut s, ':');
        push_padded(&mut s, self.frames as u64, 2);
        assert(s@ =~= smpte_text(*self));
        s
    }
}

/// IRIG timecode.
#[derive(Debug, Clone, Copy, PartialEq, Eq, Structural, Default)]
pub struct IrigTime {
    pub year: u32,
    pub day: u32,
    pub hours: u32,
    pub minutes: u32,
    pub seconds: u32,
    pub tenths: u32,
}

/// The IRIG timecode packed in the two words of a timecode entry.
pub open spec fn irig_of(high: u32, low: u32) -> IrigTime {
    IrigTime {
        year: high & 0x7F,
        day: (high >> 7) & 0x1FF,
        hours: low & 0x1F,
        minutes: (low >> 5) & 0x3F,
        seconds: (low >> 11) & 0x3F,
        tenths: (low >> 17) & 0xF,
    }
}

/// `YY:DDD:HH:MM:SS.T`.
pub open spec fn irig_text(t: IrigTime) -> Seq<char> {
    joined(
        joined(
            joined(
                joined(two_digits(t.year), ':', zero_padded(decimal(t.day as nat), 3)),
                ':',
                two_digits(t.hours),
            ),
            ':',
            two_digits(t.minutes),
        ),
        ':',
        two_digits(t.seconds),
    ).push('.') + decimal(t.tenths as nat)
}

impl IrigTime {
    pub fn decode(high: u32, low: u32) -> (t: Self)
        ensures
            t == irig_of(high, low),
    {
        IrigTime {
            year: high & 0x7F,
            day: (high >> 7) & 0x1FF,
            hours: low & 0x1F,
            minutes: (low >> 5) & 0x3F,
            seconds: (low >> 11) & 0x3F,
            tenths: (low >> 17) & 0xF,
        }
    }

    /// `YY:DDD:HH:MM:SS.T`.
    pub fn to_string(&self) -> (r: String)
        ensures
            r@ == irig_text(*self),
    {
        let mut s = String::new();
        push_padded(&mut s, self.year as u64, 2);
        push_char(&mut s, ':');
        push_padded(&mut s, self.day as u64, 3);
        push_char(&mut s, ':');
        push_padded(&mut s, self.hours as u64, 2);
        push_char(&mut s, ':');
        push_padded(&mut s, self.minutes as u64, 2);
        push_char(&mut s, ':');
        push_padded(&mut s, self.seconds as u64, 2);
        push_char(&mut s, '.');
        push_decimal(&mut s, self.tenths as u64);
        assert(s@ =~= irig_text(*self));
        s
    }
}

/// Camera time in 100 nanosecond ticks.
#[derive(Debug, Clone, Copy, PartialEq, Eq, Structural, Default)]
pub struct CameraTime(pub u64);

/// The duration `Duration::from_nanos` builds from a number of nanoseconds.
pub uninterp spec fn duration_of_nanos(nanos: u64) -> std::time::Duration;

/// Builds a `Duration` of `nanos` nanoseconds with `Duration::from_nanos`.
#[verifier::external_body]
fn duration_from_nanos(nanos: u64) -> (r: std::time::Duration)
    ensures
        r == duration_of_nanos(nanos),
{
    std::time::Duration::from_nanos(nanos)
}

/// The nanoseconds of `ticks` 100 nanosecond ticks, saturating at the
/// largest `u64`.
pub open spec fn ticks_nanos(ticks: u64) -> u64 {
    if ticks * 100 > u64::MAX {
        u64::MAX
    } else {
        (ticks * 100) as u64
    }
}

/// `seconds.nnnnnnnnn`: whole seconds, then the nanoseconds of the
/// remainder zero-padded to nine digits.
pub open spec fn camera_time_text(ticks: u64) -> Seq<char> {
    decimal((ticks / 10_000_000) as nat).push('.') + zero_padded(
        decimal(((ticks % 10_000_000) * 100) as nat),
        9,
    )
}

impl CameraTime {
    pub const TICKS_PER_SECOND: u64 = 10_000_000;

    /// The camera time as a duration, saturating at the largest number of
    /// nanoseconds a `u64` holds.
    pub fn as_duration(self) -> (r: std::time::Duration)
        ensures
            r == duration_of_nanos(ticks_nanos(self.0)),
    {
        let nanos = if self.0 > u64::MAX / 100 {
            u64::MAX
        } else {
            self.0 * 100
        };
        duration_from_nanos(nanos)
    }

    /// `seconds.nnnnnnnnn`.
    pub fn to_string(&self) -> (r: String)
        ensures
            r@ == camera_time_text(self.0),
    {
        let seconds = self.0 / Self::TICKS_PER_SECOND;
        let nanos = (self.0 % Self::TICKS_PER_SECOND) * 100;
        let mut s = String::new();
        push_decimal(&mut s, seconds);
        push_char(&mut s, '.');
        push_padded(&mut s, nanos, 9);
        assert(s@ =~= camera_time_text(self.0));
        s
    }
}

/// A single timecode reading.
#[derive(Debug, Clone, Copy, PartialEq, Eq, Structural)]
pub enum Timecode {
    Smpte(SmpteTime),
    Irig(IrigTime),
    CameraTime(CameraTime),
    Unknown { kind: u32, high: u32, low: u32 },
}

/// The timecode an entry of the given kind and words encodes.
pub open spec fn timecode_of(kind: u32, high: u32, low: u32) -> Timecode {
    if kind == 0 {
        Timecode::Smpte(smpte_of(low))
    } else if kind == 1 {
        Timecode::Irig(irig_of(high, low))
    } else if kind == 2 {
        Timecode::CameraTime(CameraTime((high as int * 0x1_0000_0000 + low as int) as u64))
    } else {
        Timecode::Unknown { kind, high, low }
    }
}

/// The rendering of a timecode.
pub open spec fn timecode_text(t: Timecode) -> Seq<char> {
    match t {
        Timecode::Smpte(v) => smpte_text(v),
        Timecode::Irig(v) => irig_text(v),
        Timecode::CameraTime(v) => camera_time_text(v.0),
        Timecode::Unknown { kind, .. } => "unknown timecode type "@ + decimal(kind as nat),
    }
}

impl Timecode {
    pub fn to_string(&self) -> (r: String)
        ensures
            r@ == timecode_text(*self),
    {
        match self {
            Timecode::Smpte(t) => t.to_string(),
            Timecode::Irig(t) => t.to_string(),
            Timecode::CameraTime(t) => t.to_string(),
            Timecode::Unknown { kind, .. } => {
                let mut s = String::new();
                push_str(&mut s, "unknown timecode type ");
                push_decimal(&mut s, *kind as u64);
                assert(s@ =~= timecode_text(*self));
                s
            },
        }
    }
}

#[derive(Debug, Clone, PartialEq, Eq, Default)]
pub struct Timecodes {
    pub timecodes: Vec<Timecode>,
}

/// True when `s` is a well-formed timecode payload.
pub open spec fn timecodes_ok(order: ByteOrder, s: Seq<u8>) -> bool {
    s.len() == 0 || (4 <= s.len() && 12 * u32_at(order, s, 0) <= s.len() - 4)
}

/// `m` is what the well-formed payload `s` decodes to.
pub open spec fn timecodes_of(order: ByteOrder, s: Seq<u8>, m: Timecodes) -> bool {
    if s.len() == 0 {
        m.timecodes@.len() == 0
    } else {
        &&& m.timecodes@.len() == u32_at(order, s, 0)
        &&& forall|k: int|
            0 <= k < m.timecodes@.len() ==> #[trigger] m.timecodes@[k] == timecode_of(
                u32_at(order, s, 4 + 12 * k),
                u32_at(order, s, 4 + 12 * k + 4),
                u32_at(order, s, 4 + 12 * k + 8),
            )
    }
}

fn camera_ticks(high: u32, low: u32) -> (r: u64)
    ensures
        r == high as int * 0x1_0000_0000 + low as int,
{
    let r = ((high as u64) << 32) | (low as u64);
    assert(((high as u64) << 32) | (low as u64) == (high as u64) * 0x1_0000_0000 + (low as u64))
        by (bit_vector);
    r
}

impl Timecodes {
    /// type, high word and low word.
    pub const ENTRY_BYTES: usize = 12;

    pub fn decode(c: &mut Cursor<'_>) -> (r: Result<Self>)
        ensures
            r is Ok <==> timecodes_ok(old(c).byte_order(), old(c).rest()),
            r matches Ok(m) ==> timecodes_of(old(c).byte_order(), old(c).rest(), m),
            r matches Err(e) ==> e == count_error(
                old(c).byte_order(),
                old(c).rest(),
                old(c).offset() as int,
                12,
            ),
    {
        let ghost s = c.rest();
        let ghost order = c.byte_order();
        let ghost start = c.offset() as int;
        if c.remaining() == 0 {
            return Ok(Timecodes { timecodes: Vec::new() });
        }
        let count = match c.u32() {
            Ok(v) => v,
            Err(e) => return Err(e),
        };
        match c.check_count(count, Self::ENTRY_BYTES) {
            Ok(()) => {},
            Err(e) => return Err(e),
        }

        let mut timecodes: Vec<Timecode> = c.vec_with_capacity(count);
        let mut k: u32 = 0;
        while k < count
            invariant
                0 <= k <= count,
                s.len() >= 4,
                count == u32_at(order, s, 0),
                12 * count <= s.len() - 4,
                c.input().len() - start == s.len(),
                0 <= start,
                c.byte_order() == order,
                s == c.input().subrange(start, c.input().len() as int),
                c.offset() == start + 4 + 12 * k,
                timecodes@.len() == k,
                forall|i: int|
                    0 <= i < k ==> #[trigger] timecodes@[i] == timecode_of(
                        u32_at(order, s, 4 + 12 * i),
                        u32_at(order, s, 4 + 12 * i + 4),
                        u32_at(order, s, 4 + 12 * i + 8),
                    ),
            decreases count - k,
        {
            let ghost at = 4 + 12 * k;
            proof {
                lemma_fields_shift(order, c.input(), start, s, at);
                lemma_fields_shift(order, c.input(), start, s, at + 4);
                lemma_fields_shift(order, c.input(), start, s, at + 8);
            }
            let kind = match c.u32() {
                Ok(v) => v,
                Err(e) => return Err(e),
            };
            let high = match c.u32() {
                Ok(v) => v,
                Err(e) => return Err(e),
            };
            let low = match c.u32() {
                Ok(v) => v,
                Err(e) => return Err(e),
            };
            let timecode = match kind {
                0 => Timecode::Smpte(SmpteTime::decode(low)),
                1 => Timecode::Irig(IrigTime::decode(high, low)),
                2 => Timecode::CameraTime(CameraTime(camera_ticks(high, low))),
                other => Timecode::Unknown { kind: other, high, low },
            };
            timecodes.push(timecode);
            k = k + 1;
        }
        Ok(Timecodes { timecodes })
    }
}

/// The bit fields of an IRIG date word and time word read back as packed.
proof fn lemma_irig_fields(year: u32, day: u32, hours: u32, minutes: u32, seconds: u32, tenths: u32)
    requires
        year < 0x80,
        day < 0x200,
        hours < 0x20,
        minutes < 0x40,
        seconds < 0x40,
        tenths < 0x10,
    ensures
        irig_of(
            (year + 0x80 * day) as u32,
            (hours + 0x20 * minutes + 0x800 * seconds + 0x2_0000 * tenths) as u32,
        ) == (IrigTime { year, day, hours, minutes, seconds, tenths }),
{
    let high = (year + 0x80 * day) as u32;
    let low = (hours + 0x20 * minutes + 0x800 * seconds + 0x2_0000 * tenths) as u32;
    assert(high & 0x7F == year && (high >> 7) & 0x1FF == day) by (bit_vector)
        requires
            year < 0x80,
            day < 0x200,
            high == year + 0x80 * day,
    ;
    assert(low & 0x1F == hours && (low >> 5) & 0x3F == minutes && (low >> 11) & 0x3F == seconds
        && (low >> 17) & 0xF == tenths) by (bit_vector)
        requires
            hours < 0x20,
            minutes < 0x40,
            seconds < 0x40,
            tenths < 0x10,
            low == hours + 0x20 * minutes + 0x800 * seconds + 0x2_0000 * tenths,
    ;
}

/// The bit fields of an SMPTE time word read back as packed.
proof fn lemma_smpte_fields(hours: u32, minutes: u32, seconds: u32, frames: u32, sub_frame: u32)
    requires
        hours < 0x20,
        minutes < 0x40,
        seconds < 0x40,
        frames < 0x20,
        sub_frame < 0x200,
    ensures
        smpte_of(
            (hours + 0x20 * minutes + 0x800 * seconds + 0x2_0000 * frames + 0x40_0000
                * sub_frame) as u32,
        ) == (SmpteTime { hours, minutes, seconds, frames, sub_frame }),
{
    let low = (hours + 0x20 * minutes + 0x800 * seconds + 0x2_0000 * frames + 0x40_0000
        * sub_frame) as u32;
    assert(low & 0x1F == hours && (low >> 5) & 0x3F == minutes && (low >> 11) & 0x3F == seconds
        && (low >> 17) & 0x1F == frames && (low >> 22) & 0x1FF == sub_frame) by (bit_vector)
        requires
            hours < 0x20,
            minutes < 0x40,
            seconds < 0x40,
            frames < 0x20,
            sub_frame < 0x200,
            low == hours + 0x20 * minutes + 0x800 * seconds + 0x2_0000 * frames + 0x40_0000
                * sub_frame,
    ;
}

/// The payload's `k`th timecode entry (after the 4 byte count) is written
/// as the words `words`.
pub open spec fn timecode_entry_written(order: ByteOrder, s: Seq<u8>, k: int, words: Seq<u32>) -> bool {
    let at = 4 + 12 * k;
    &&& words.len() == 3
    &&& at + 12 <= s.len()
    &&& s.subrange(at, at + 12) == words_bytes(order, words)
}

/// The `k`th timecode decoded from a payload is the one its entry's type,
/// high word and low word encode, read at the entry's place.
proof fn lemma_timecode_entry(order: ByteOrder, s: Seq<u8>, m: Timecodes, k: int, words: Seq<u32>)
    requires
        timecodes_of(order, s, m),
        0 <= k < m.timecodes@.len(),
        timecode_entry_written(order, s, k, words),
    ensures
        m.timecodes@[k] == timecode_of(words[0], words[1], words[2]),
{
    let at = 4 + 12 * k;
    lemma_words_bytes_read(order, words, s, at);
    assert(u32_at(order, s, at + 4 * 0) == words[0]);
    assert(u32_at(order, s, at + 4 * 1) == words[1]);
    assert(u32_at(order, s, at + 4 * 2) == words[2]);
    assert(s.len() > 0);
}

/// Round trip against the wire layout of an IRIG timecode: an entry written
/// as type 1, the date word `year | day << 7` and the time word
/// `hours | minutes << 5 | seconds << 11 | tenths << 17`, each field in
/// range, decodes to the IRIG timecode with exactly those fields.
pub proof fn lemma_irig_round_trip(
    order: ByteOrder,
    s: Seq<u8>,
    m: Timecodes,
    k: int,
    year: u32,
    day: u32,
    hours: u32,
    minutes: u32,
    seconds: u32,
    tenths: u32,
)
    requires
        timecodes_of(order, s, m),
        0 <= k < m.timecodes@.len(),
        year < 0x80,
        day < 0x200,
        hours < 0x20,
        minutes < 0x40,
        seconds < 0x40,
        tenths < 0x10,
        timecode_entry_written(
            order,
            s,
            k,
            seq![
                1u32,
                (year + 0x80 * day) as u32,
                (hours + 0x20 * minutes + 0x800 * seconds + 0x2_0000 * tenths) as u32,
            ],
        ),
    ensures
        m.timecodes@[k] == Timecode::Irig(IrigTime { year, day, hours, minutes, seconds, tenths }),
{
    lemma_timecode_entry(
        order,
        s,
        m,
        k,
        seq![
            1u32,
            (year + 0x80 * day) as u32,
            (hours + 0x20 * minutes + 0x800 * seconds + 0x2_0000 * tenths) as u32,
        ],
    );
    lemma_irig_fields(year, day, hours, minutes, seconds, tenths);
}

/// Round trip against the wire layout of an SMPTE timecode: an entry written
/// as type 0, any high word, and the time word
/// `hours | minutes << 5 | seconds << 11 | frames << 17 | sub_frame << 22`,
/// each field in range, decodes to the SMPTE time with exactly those fields.
pub proof fn lemma_smpte_round_trip(
    order: ByteOrder,
    s: Seq<u8>,
    m: Timecodes,
    k: int,
    high: u32,
    hours: u32,
    minutes: u32,
    seconds: u32,
    frames: u32,
    sub_frame: u32,
)
    requires
        timecodes_of(order, s, m),
        0 <= k < m.timecodes@.len(),
        hours < 0x20,
        minutes < 0x40,
        seconds < 0x40,
        frames < 0x20,
        sub_frame < 0x200,
        timecode_entry_written(
            order,
            s,
            k,
            seq![
                0u32,
                high,
                (hours + 0x20 * minutes + 0x800 * seconds + 0x2_0000 * frames + 0x40_0000
                    * sub_frame) as u32,
            ],
        ),
    ensures
        m.timecodes@[k] == Timecode::Smpte(SmpteTime { hours, minutes, seconds, frames, sub_frame }),
{
    lemma_timecode_entry(
        order,
        s,
        m,
        k,
        seq![
            0u32,
            high,
            (hours + 0x20 * minutes + 0x800 * seconds + 0x2_0000 * frames + 0x40_0000
                * sub_frame) as u32,
        ],
    );
    lemma_smpte_fields(hours, minutes, seconds, frames, sub_frame);
}

/// Round trip against the wire layout of a camera time: an entry written as
/// type 2 followed by the high and low 32 bits of a tick count decodes to
/// the camera time of that tick count.
pub proof fn lemma_camera_time_round_trip(order: ByteOrder, s: Seq<u8>, m: Timecodes, k: int, ticks: u64)
    requires
        timecodes_of(order, s, m),
        0 <= k < m.timecodes@.len(),
        timecode_entry_written(
            order,
            s,
            k,
            seq![2u32, (ticks / 0x1_0000_0000) as u32, (ticks % 0x1_0000_0000) as u32],
        ),
    ensures
        m.timecodes@[k] == Timecode::CameraTime(CameraTime(ticks)),
{
    lemma_timecode_entry(
        order,
        s,
        m,
        k,
        seq![2u32, (ticks / 0x1_0000_0000) as u32, (ticks % 0x1_0000_0000) as u32],
    );
}

} // verus!
