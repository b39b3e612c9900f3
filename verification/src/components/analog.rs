//! Analog and force plate components.

use vstd::prelude::*;

use crate::components::Point;
use crate::cursor::{
    count_error, lemma_fields_shift, point_at, short_count, short_read, short_word, u32_at, words_at,
    ByteOrder, Cursor,
};
use crate::error::{Error, Result};
use crate::records::{
    first_bad_offset, first_unfit, lemma_first_bad_offset, lemma_first_unfit, lemma_records_unfit,
    record_offset, records_fit,
};
use crate::text::{decimal, push_decimal, push_str};

verus! {

/// One analog device and its samples.
///
/// `channels[c][s]` is sample `s` of channel `c`, as a float bit pattern. The
/// wire format groups all samples of a channel together rather than
/// interleaving them.
#[derive(Debug, Clone, PartialEq, Eq, Default)]
pub struct AnalogDevice {
    pub id: u32,
    pub sample_number: u32,
    pub channels: Vec<Vec<u32>>,
}

/// The analog component, covering both the multi-sample and single-sample
/// variants.
#[derive(Debug, Clone, PartialEq, Eq, Default)]
pub struct Analog {
    pub devices: Vec<AnalogDevice>,
}

/// Where the device after one starting at `o` starts: a 16 byte header, then
/// one float per sample per channel.
pub open spec fn analog_next(order: ByteOrder, s: Seq<u8>) -> spec_fn(int) -> int {
    |o: int| o + 16 + 4 * (u32_at(order, s, o + 4) * u32_at(order, s, o + 8))
}

/// True when the header of the device starting at `o` lies within `s`.
pub open spec fn analog_header_fits(s: Seq<u8>, o: int) -> bool {
    o + 16 <= s.len()
}

/// True when the device starting at `o` lies within `s`: its samples fit in
/// what is left, and so does its channel count, counted one byte per
/// channel, so that a device with no samples cannot claim more channels than
/// the payload could ever describe.
pub open spec fn analog_fits(order: ByteOrder, s: Seq<u8>) -> spec_fn(int) -> bool {
    |o: int|
        analog_header_fits(s, o) && 4 * (u32_at(order, s, o + 4) * u32_at(order, s, o + 8))
            <= s.len() - (o + 16) && u32_at(order, s, o + 4) <= s.len() - (o + 16)
}

/// True when `s` is a well-formed analog payload.
pub open spec fn analog_ok(order: ByteOrder, s: Seq<u8>) -> bool {
    s.len() == 0 || {
        &&& 4 <= s.len()
        &&& 16 * u32_at(order, s, 0) <= s.len() - 4
        &&& records_fit(4, analog_next(order, s), analog_fits(order, s), u32_at(order, s, 0) as nat)
    }
}

/// `d` is the device starting at byte `o` of `s`.
pub open spec fn analog_device_of(order: ByteOrder, s: Seq<u8>, o: int, d: AnalogDevice) -> bool {
    let samples = u32_at(order, s, o + 8);
    &&& d.id == u32_at(order, s, o)
    &&& d.sample_number == u32_at(order, s, o + 12)
    &&& d.channels@.len() == u32_at(order, s, o + 4)
    &&& forall|a: int|
        0 <= a < d.channels@.len() ==> (#[trigger] d.channels@[a])@ == words_at(
            order,
            s,
            o + 16 + 4 * (a * samples),
            samples as nat,
        )
}

/// `m` is what the well-formed payload `s` decodes to.
pub open spec fn analog_of(order: ByteOrder, s: Seq<u8>, m: Analog) -> bool {
    if s.len() == 0 {
        m.devices@.len() == 0
    } else {
        &&& m.devices@.len() == u32_at(order, s, 0)
        &&& forall|j: int|
            0 <= j < m.devices@.len() ==> analog_device_of(
                order,
                s,
                record_offset(4, analog_next(order, s), j as nat),
                #[trigger] m.devices@[j],
            )
    }
}

/// Where the single-sample device after one starting at `o` starts: an 8 byte
/// header and one float per channel.
pub open spec fn analog_single_next(order: ByteOrder, s: Seq<u8>) -> spec_fn(int) -> int {
    |o: int| o + 8 + 4 * u32_at(order, s, o + 4)
}

/// True when the single-sample device starting at `o` lies within `s`.
pub open spec fn analog_single_fits(order: ByteOrder, s: Seq<u8>) -> spec_fn(int) -> bool {
    |o: int| o + 8 <= s.len() && 4 * u32_at(order, s, o + 4) <= s.len() - (o + 8)
}

/// True when `s` is a well-formed single-sample analog payload.
pub open spec fn analog_single_ok(order: ByteOrder, s: Seq<u8>) -> bool {
    s.len() == 0 || {
        &&& 4 <= s.len()
        &&& 8 * u32_at(order, s, 0) <= s.len() - 4
        &&& records_fit(
            4,
            analog_single_next(order, s),
            analog_single_fits(order, s),
            u32_at(order, s, 0) as nat,
        )
    }
}

/// `d` is the single-sample device starting at byte `o` of `s`.
pub open spec fn analog_single_device_of(
    order: ByteOrder,
    s: Seq<u8>,
    o: int,
    d: AnalogDevice,
) -> bool {
    &&& d.id == u32_at(order, s, o)
    &&& d.sample_number == 0
    &&& d.channels@.len() == u32_at(order, s, o + 4)
    &&& forall|a: int|
        0 <= a < d.channels@.len() ==> (#[trigger] d.channels@[a])@ == seq![
            u32_at(order, s, o + 8 + 4 * a),
        ]
}

/// `m` is what the well-formed single-sample payload `s` decodes to.
pub open spec fn analog_single_of(order: ByteOrder, s: Seq<u8>, m: Analog) -> bool {
    if s.len() == 0 {
        m.devices@.len() == 0
    } else {
        &&& m.devices@.len() == u32_at(order, s, 0)
        &&& forall|j: int|
            0 <= j < m.devices@.len() ==> analog_single_device_of(
                order,
                s,
                record_offset(4, analog_single_next(order, s), j as nat),
                #[trigger] m.devices@[j],
            )
    }
}

proof fn lemma_channel_step(a: int, channels: int, samples: int)
    requires
        0 <= a < channels,
        0 <= samples,
    ensures
        0 <= a * samples,
        a * samples + samples == (a + 1) * samples,
        (a + 1) * samples <= channels * samples,
{
    assert(0 <= a * samples) by (nonlinear_arith)
        requires
            0 <= a,
            0 <= samples,
    ;
    assert(a * samples + samples == (a + 1) * samples) by (nonlinear_arith);
    assert((a + 1) * samples <= channels * samples) by (nonlinear_arith)
        requires
            a + 1 <= channels,
            0 <= samples,
    ;
}

/// The message reported for a device whose samples overrun the payload.
pub open spec fn analog_overflow_text(id: u32, channels: u32, samples: u32, remaining: nat) -> Seq<
    char,
> {
    "analog device "@ + decimal(id as nat) + " claims "@ + decimal(channels as nat)
        + " channels of "@ + decimal(samples as nat) + " samples, which does not fit in "@
        + decimal(remaining) + " remaining bytes"@
}

/// Where the first device of a malformed analog payload that does not fit
/// starts.
pub open spec fn analog_first_bad(order: ByteOrder, s: Seq<u8>) -> int {
    record_offset(
        4,
        analog_next(order, s),
        first_unfit(4, analog_next(order, s), analog_fits(order, s), u32_at(order, s, 0) as nat),
    )
}

/// True when a malformed analog payload fails on a device whose header is
/// complete but whose samples overrun the payload.
pub open spec fn analog_overrun(order: ByteOrder, s: Seq<u8>) -> bool {
    &&& 4 <= s.len()
    &&& 16 * u32_at(order, s, 0) <= s.len() - 4
    &&& analog_header_fits(s, analog_first_bad(order, s))
}

/// What decoding a malformed analog payload reports when it is cut short,
/// for a cursor at offset `start`: a cut short or impossible device count, or
/// the first device whose header is cut short.
pub open spec fn analog_short_error(order: ByteOrder, s: Seq<u8>, start: int) -> Error {
    if s.len() < 4 || 16 * u32_at(order, s, 0) > s.len() - 4 {
        count_error(order, s, start, 16)
    } else {
        short_word(start, s, analog_first_bad(order, s))
    }
}

/// What decoding a malformed single-sample analog payload reports, for a
/// cursor at offset `start`: a cut short or impossible device count, or, on
/// the first device that does not fit, its cut short header or its channel
/// count that does not fit.
pub open spec fn analog_single_error(order: ByteOrder, s: Seq<u8>, start: int) -> Error {
    if s.len() < 4 || 8 * u32_at(order, s, 0) > s.len() - 4 {
        count_error(order, s, start, 8)
    } else {
        let o = first_bad_offset(
            4,
            analog_single_next(order, s),
            analog_single_fits(order, s),
            u32_at(order, s, 0) as nat,
        );
        if o + 8 > s.len() {
            short_word(start, s, o)
        } else {
            short_count(start, s, o + 8, u32_at(order, s, o + 4) as int, 4)
        }
    }
}

/// What decoding a malformed force payload reports, for a cursor at offset
/// `start`: a cut short or impossible plate count, or, on the first plate
/// that does not fit, its cut short header or its sample count that does not
/// fit.
pub open spec fn force_error(order: ByteOrder, s: Seq<u8>, start: int) -> Error {
    if s.len() < 4 || 12 * u32_at(order, s, 0) > s.len() - 4 {
        count_error(order, s, start, 12)
    } else {
        let o = first_bad_offset(4, force_next(order, s), force_fits(order, s), u32_at(order, s, 0) as nat);
        if o + 12 > s.len() {
            short_word(start, s, o)
        } else {
            short_count(start, s, o + 12, u32_at(order, s, o + 4) as int, 36)
        }
    }
}

/// On a payload whose first `j` plates fit and whose plate `j` does not, the
/// error is that plate's.
proof fn lemma_force_error_at(order: ByteOrder, s: Seq<u8>, start: int, j: nat)
    requires
        4 <= s.len(),
        12 * u32_at(order, s, 0) <= s.len() - 4,
        j < u32_at(order, s, 0),
        records_fit(4, force_next(order, s), force_fits(order, s), j),
        !force_fits(order, s)(record_offset(4, force_next(order, s), j)),
    ensures
        ({
            let o = record_offset(4, force_next(order, s), j);
            force_error(order, s, start) == if o + 12 > s.len() {
                short_word(start, s, o)
            } else {
                short_count(start, s, o + 12, u32_at(order, s, o + 4) as int, 36)
            }
        }),
{
    lemma_first_bad_offset(4, force_next(order, s), force_fits(order, s), u32_at(order, s, 0) as nat, j);
}

fn analog_overflow_message(id: u32, channels: u32, samples: u32, remaining: usize) -> (m: String)
    ensures
        m@ == analog_overflow_text(id, channels, samples, remaining as nat),
{
    let mut m = String::new();
    push_str(&mut m, "analog device ");
    push_decimal(&mut m, id as u64);
    push_str(&mut m, " claims ");
    push_decimal(&mut m, channels as u64);
    push_str(&mut m, " channels of ");
    push_decimal(&mut m, samples as u64);
    push_str(&mut m, " samples, which does not fit in ");
    push_decimal(&mut m, remaining as u64);
    push_str(&mut m, " remaining bytes");
    assert(m@ =~= analog_overflow_text(id, channels, samples, remaining as nat));
    m
}

impl Analog {
    /// Decodes the multi-sample analog component.
    ///
    /// Device layout: id, channel count, sample count, sample number, then
    /// `sample_count` values for channel 0, then channel 1, and so on.
    #[verifier::rlimit(100)]
    #[verifier::spinoff_prover]
    pub fn decode(c: &mut Cursor<'_>) -> (r: Result<Self>)
        ensures
            r is Ok <==> analog_ok(old(c).byte_order(), old(c).rest()),
            r matches Ok(m) ==> analog_of(old(c).byte_order(), old(c).rest(), m),
            r matches Err(e) ==> ({
                let s = old(c).rest();
                let order = old(c).byte_order();
                let o = analog_first_bad(order, s);
                if analog_overrun(order, s) {
                    e is MalformedFrame && e->MalformedFrame_0@ == analog_overflow_text(
                        u32_at(order, s, o),
                        u32_at(order, s, o + 4),
                        u32_at(order, s, o + 8),
                        (s.len() - (o + 16)) as nat,
                    )
                } else {
                    e == analog_short_error(order, s, old(c).offset() as int)
                }
            }),
    {
        let ghost s = c.rest();
        let ghost order = c.byte_order();
        let ghost start = c.offset() as int;
        if c.remaining() == 0 {
            return Ok(Analog { devices: Vec::new() });
        }
        let device_count = match c.u32() {
            Ok(v) => v,
            Err(e) => return Err(e),
        };
        match c.check_count(device_count, 16) {
            Ok(()) => {},
            Err(e) => return Err(e),
        }
        let ghost next = analog_next(order, s);
        let ghost fits = analog_fits(order, s);

        let mut devices: Vec<AnalogDevice> = c.vec_with_capacity(device_count);
        let mut j: u32 = 0;
        while j < device_count
            invariant
                0 <= j <= device_count,
                s == old(c).rest(),
                order == old(c).byte_order(),
                start == old(c).offset(),
                s.len() >= 4,
                device_count == u32_at(order, s, 0),
                16 * device_count <= s.len() - 4,
                next == analog_next(order, s),
                fits == analog_fits(order, s),
                c.input().len() - start == s.len(),
                0 <= start,
                c.byte_order() == order,
                s == c.input().subrange(start, c.input().len() as int),
                c.offset() == start + record_offset(4, next, j as nat),
                4 <= record_offset(4, next, j as nat) <= s.len(),
                records_fit(4, next, fits, j as nat),
                devices@.len() == j,
                forall|i: int|
                    0 <= i < j ==> analog_device_of(
                        order,
                        s,
                        record_offset(4, next, i as nat),
                        #[trigger] devices@[i],
                    ),
            decreases device_count - j,
        {
            let ghost o = record_offset(4, next, j as nat);
            proof {
                lemma_fields_shift(order, c.input(), start, s, o);
                lemma_fields_shift(order, c.input(), start, s, o + 4);
                lemma_fields_shift(order, c.input(), start, s, o + 8);
                lemma_fields_shift(order, c.input(), start, s, o + 12);
            }
            let id = match c.u32() {
                Ok(v) => v,
                Err(e) => {
                    proof {
                        assert(!fits(o));
                        lemma_records_unfit(4, next, fits, device_count as nat, j as nat);
                        lemma_first_unfit(4, next, fits, device_count as nat, j as nat);
                    }
                    return Err(e);
                },
            };
            let channel_count = match c.u32() {
                Ok(v) => v,
                Err(e) => {
                    proof {
                        assert(!fits(o));
                        lemma_records_unfit(4, next, fits, device_count as nat, j as nat);
                        lemma_first_unfit(4, next, fits, device_count as nat, j as nat);
                    }
                    return Err(e);
                },
            };
            let sample_count = match c.u32() {
                Ok(v) => v,
                Err(e) => {
                    proof {
                        assert(!fits(o));
                        lemma_records_unfit(4, next, fits, device_count as nat, j as nat);
                        lemma_first_unfit(4, next, fits, device_count as nat, j as nat);
                    }
                    return Err(e);
                },
            };
            let sample_number = match c.u32() {
                Ok(v) => v,
                Err(e) => {
                    proof {
                        assert(!fits(o));
                        lemma_records_unfit(4, next, fits, device_count as nat, j as nat);
                        lemma_first_unfit(4, next, fits, device_count as nat, j as nat);
                    }
                    return Err(e);
                },
            };

            assert(channel_count as int * sample_count as int <= 0xFFFF_FFFE_0000_0001) by (
            nonlinear_arith)
                requires
                    channel_count <= 0xFFFF_FFFF,
                    sample_count <= 0xFFFF_FFFF,
            ;
            let product: u64 = channel_count as u64 * sample_count as u64;
            let total: u64 = if product > u64::MAX / 4 {
                u64::MAX
            } else {
                product * 4
            };
            let remaining = c.remaining();
            proof {
                assert(remaining == s.len() - (o + 16));
                assert(channel_count == u32_at(order, s, o + 4));
                assert(sample_count == u32_at(order, s, o + 8));
            }
            // A channel count is checked against the bytes left before it
            // reserves anything, even when there are no samples to read.
            if total > remaining as u64 || channel_count as usize > remaining {
                proof {
                    assert(!fits(o));
                    lemma_records_unfit(4, next, fits, device_count as nat, j as nat);
                        lemma_first_unfit(4, next, fits, device_count as nat, j as nat);
                }
                return Err(
                    Error::MalformedFrame(
                        analog_overflow_message(id, channel_count, sample_count, remaining),
                    ),
                );
            }
            assert(fits(o));
            let ghost base = o + 16;

            let mut channels: Vec<Vec<u32>> = Vec::with_capacity(channel_count as usize);
            let mut a: u32 = 0;
            while a < channel_count
                invariant
                    0 <= a <= channel_count,
                    0 <= o,
                    base == o + 16,
                    base + 4 * (channel_count * sample_count) <= s.len(),
                    c.input().len() - start == s.len(),
                    0 <= start,
                    c.byte_order() == order,
                    s == c.input().subrange(start, c.input().len() as int),
                    c.offset() == start + base + 4 * (a * sample_count),
                    0 <= a * sample_count <= channel_count * sample_count,
                    channels@.len() == a,
                    forall|i: int|
                        0 <= i < a ==> (#[trigger] channels@[i])@ == words_at(
                            order,
                            s,
                            base + 4 * (i * sample_count),
                            sample_count as nat,
                        ),
                decreases channel_count - a,
            {
                proof {
                    lemma_channel_step(a as int, channel_count as int, sample_count as int);
                }
                let ghost cstart = base + 4 * (a * sample_count);
                let mut samples: Vec<u32> = Vec::with_capacity(sample_count as usize);
                let mut b: u32 = 0;
                while b < sample_count
                    invariant
                        0 <= b <= sample_count,
                        0 <= cstart,
                        cstart + 4 * sample_count <= s.len(),
                        c.input().len() - start == s.len(),
                        0 <= start,
                        c.byte_order() == order,
                        s == c.input().subrange(start, c.input().len() as int),
                        c.offset() == start + cstart + 4 * b,
                        samples@.len() == b,
                        forall|i: int|
                            0 <= i < b ==> #[trigger] samples@[i] == u32_at(
                                order,
                                s,
                                cstart + 4 * i,
                            ),
                    decreases sample_count - b,
                {
                    proof {
                        lemma_fields_shift(order, c.input(), start, s, cstart + 4 * b);
                    }
                    let v = match c.float_bits() {
                        Ok(v) => v,
                        Err(e) => return Err(e),
                    };
                    samples.push(v);
                    b = b + 1;
                }
                assert(samples@ =~= words_at(order, s, cstart, sample_count as nat));
                channels.push(samples);
                a = a + 1;
            }
            let device = AnalogDevice { id, sample_number, channels };
            assert(analog_device_of(order, s, o, device));
            devices.push(device);
            proof {
                assert(records_fit(4, next, fits, (j + 1) as nat));
            }
            j = j + 1;
        }
        Ok(Analog { devices })
    }

    /// Decodes the single-sample analog component: one value per channel, with
    /// no sample count or sample number field.
    #[verifier::rlimit(100)]
    #[verifier::spinoff_prover]
    pub fn decode_single(c: &mut Cursor<'_>) -> (r: Result<Self>)
        ensures
            r is Ok <==> analog_single_ok(old(c).byte_order(), old(c).rest()),
            r matches Ok(m) ==> analog_single_of(old(c).byte_order(), old(c).rest(), m),
            r matches Err(e) ==> e == analog_single_error(
                old(c).byte_order(),
                old(c).rest(),
                old(c).offset() as int,
            ),
    {
        let ghost s = c.rest();
        let ghost order = c.byte_order();
        let ghost start = c.offset() as int;
        if c.remaining() == 0 {
            return Ok(Analog { devices: Vec::new() });
        }
        let device_count = match c.u32() {
            Ok(v) => v,
            Err(e) => return Err(e),
        };
        match c.check_count(device_count, 8) {
            Ok(()) => {},
            Err(e) => return Err(e),
        }
        let ghost next = analog_single_next(order, s);
        let ghost fits = analog_single_fits(order, s);

        let mut devices: Vec<AnalogDevice> = c.vec_with_capacity(device_count);
        let mut j: u32 = 0;
        while j < device_count
            invariant
                0 <= j <= device_count,
                s == old(c).rest(),
                order == old(c).byte_order(),
                start == old(c).offset(),
                s.len() >= 4,
                device_count == u32_at(order, s, 0),
                8 * device_count <= s.len() - 4,
                next == analog_single_next(order, s),
                fits == analog_single_fits(order, s),
                c.input().len() - start == s.len(),
                0 <= start,
                c.byte_order() == order,
                s == c.input().subrange(start, c.input().len() as int),
                c.offset() == start + record_offset(4, next, j as nat),
                4 <= record_offset(4, next, j as nat) <= s.len(),
                records_fit(4, next, fits, j as nat),
                devices@.len() == j,
                forall|i: int|
                    0 <= i < j ==> analog_single_device_of(
                        order,
                        s,
                        record_offset(4, next, i as nat),
                        #[trigger] devices@[i],
                    ),
            decreases device_count - j,
        {
            let ghost o = record_offset(4, next, j as nat);
            proof {
                lemma_fields_shift(order, c.input(), start, s, o);
                lemma_fields_shift(order, c.input(), start, s, o + 4);
            }
            let id = match c.u32() {
                Ok(v) => v,
                Err(e) => {
                    proof {
                        assert(!fits(o));
                        lemma_records_unfit(4, next, fits, device_count as nat, j as nat);
                        lemma_first_bad_offset(4, next, fits, device_count as nat, j as nat);
                    }
                    return Err(e);
                },
            };
            let channel_count = match c.u32() {
                Ok(v) => v,
                Err(e) => {
                    proof {
                        assert(!fits(o));
                        lemma_records_unfit(4, next, fits, device_count as nat, j as nat);
                        lemma_first_bad_offset(4, next, fits, device_count as nat, j as nat);
                    }
                    return Err(e);
                },
            };
            match c.check_count(channel_count, 4) {
                Ok(()) => {},
                Err(e) => {
                    proof {
                        assert(!fits(o));
                        lemma_records_unfit(4, next, fits, device_count as nat, j as nat);
                        lemma_first_bad_offset(4, next, fits, device_count as nat, j as nat);
                    }
                    return Err(e);
                },
            }
            assert(fits(o));
            let mut channels: Vec<Vec<u32>> = Vec::with_capacity(channel_count as usize);
            let mut a: u32 = 0;
            while a < channel_count
                invariant
                    0 <= a <= channel_count,
                    0 <= o,
                    o + 8 + 4 * channel_count <= s.len(),
                    c.input().len() - start == s.len(),
                    0 <= start,
                    c.byte_order() == order,
                    s == c.input().subrange(start, c.input().len() as int),
                    c.offset() == start + o + 8 + 4 * a,
                    channels@.len() == a,
                    forall|i: int|
                        0 <= i < a ==> (#[trigger] channels@[i])@ == seq![
                            u32_at(order, s, o + 8 + 4 * i),
                        ],
                decreases channel_count - a,
            {
                proof {
                    lemma_fields_shift(order, c.input(), start, s, o + 8 + 4 * a);
                }
                let v = match c.float_bits() {
                    Ok(v) => v,
                    Err(e) => return Err(e),
                };
                let mut one: Vec<u32> = Vec::new();
                one.push(v);
                assert(one@ =~= seq![u32_at(order, s, o + 8 + 4 * a)]);
                channels.push(one);
                a = a + 1;
            }
            let device = AnalogDevice { id, sample_number: 0, channels };
            assert(analog_single_device_of(order, s, o, device));
            devices.push(device);
            proof {
                assert(records_fit(4, next, fits, (j + 1) as nat));
            }
            j = j + 1;
        }
        Ok(Analog { devices })
    }
}

/// One force plate sample: force, moment and centre of pressure.
#[derive(Debug, Clone, Copy, PartialEq, Eq, Structural, Default)]
pub struct ForceSample {
    pub force: Point,
    pub moment: Point,
    pub center_of_pressure: Point,
}

/// One force plate and its samples for this frame.
#[derive(Debug, Clone, PartialEq, Eq, Default)]
pub struct ForcePlate {
    pub id: u32,
    pub force_number: u32,
    pub samples: Vec<ForceSample>,
}

/// The force component, covering both the multi-sample and single-sample
/// variants.
#[derive(Debug, Clone, PartialEq, Eq, Default)]
pub struct Force {
    pub plates: Vec<ForcePlate>,
}

/// The force sample whose 36 byte record starts at byte `i` of `s`.
pub open spec fn force_sample_at(order: ByteOrder, s: Seq<u8>, i: int) -> ForceSample {
    ForceSample {
        force: point_at(order, s, i),
        moment: point_at(order, s, i + 12),
        center_of_pressure: point_at(order, s, i + 24),
    }
}

/// Where the plate after one starting at `o` starts: a 12 byte header and 36
/// bytes per sample.
pub open spec fn force_next(order: ByteOrder, s: Seq<u8>) -> spec_fn(int) -> int {
    |o: int| o + 12 + 36 * u32_at(order, s, o + 4)
}

/// True when the plate starting at `o` lies within `s`.
pub open spec fn force_fits(order: ByteOrder, s: Seq<u8>) -> spec_fn(int) -> bool {
    |o: int| o + 12 <= s.len() && 36 * u32_at(order, s, o + 4) <= s.len() - (o + 12)
}

/// True when `s` is a well-formed force payload.
pub open spec fn force_ok(order: ByteOrder, s: Seq<u8>) -> bool {
    s.len() == 0 || {
        &&& 4 <= s.len()
        &&& 12 * u32_at(order, s, 0) <= s.len() - 4
        &&& records_fit(4, force_next(order, s), force_fits(order, s), u32_at(order, s, 0) as nat)
    }
}

/// `p` is the plate starting at byte `o` of `s`.
pub open spec fn force_plate_of(order: ByteOrder, s: Seq<u8>, o: int, p: ForcePlate) -> bool {
    &&& p.id == u32_at(order, s, o)
    &&& p.force_number == u32_at(order, s, o + 8)
    &&& p.samples@.len() == u32_at(order, s, o + 4)
    &&& forall|k: int|
        0 <= k < p.samples@.len() ==> #[trigger] p.samples@[k] == force_sample_at(
            order,
            s,
            o + 12 + 36 * k,
        )
}

/// `m` is what the well-formed payload `s` decodes to.
pub open spec fn force_of(order: ByteOrder, s: Seq<u8>, m: Force) -> bool {
    if s.len() == 0 {
        m.plates@.len() == 0
    } else {
        &&& m.plates@.len() == u32_at(order, s, 0)
        &&& forall|j: int|
            0 <= j < m.plates@.len() ==> force_plate_of(
                order,
                s,
                record_offset(4, force_next(order, s), j as nat),
                #[trigger] m.plates@[j],
            )
    }
}

/// True when `s` is a well-formed single-sample force payload.
pub open spec fn force_single_ok(order: ByteOrder, s: Seq<u8>) -> bool {
    s.len() == 0 || (4 <= s.len() && 40 * u32_at(order, s, 0) <= s.len() - 4)
}

/// `m` is what the well-formed single-sample payload `s` decodes to.
pub open spec fn force_single_of(order: ByteOrder, s: Seq<u8>, m: Force) -> bool {
    if s.len() == 0 {
        m.plates@.len() == 0
    } else {
        &&& m.plates@.len() == u32_at(order, s, 0)
        &&& forall|j: int|
            0 <= j < m.plates@.len() ==> {
                let p = #[trigger] m.plates@[j];
                &&& p.id == u32_at(order, s, 4 + 40 * j)
                &&& p.force_number == 0
                &&& p.samples@ == seq![force_sample_at(order, s, 4 + 40 * j + 4)]
            }
    }
}

impl Force {
    /// Nine floats: force, moment and centre of pressure.
    pub const SAMPLE_BYTES: usize = 36;

    fn sample(c: &mut Cursor<'_>) -> (r: Result<ForceSample>)
        ensures
            old(c).fits(36) ==> r == Ok::<ForceSample, Error>(
                force_sample_at(old(c).byte_order(), old(c).input(), old(c).offset() as int),
            ) && final(c).advanced(*old(c), 36),
            !old(c).fits(36) ==> r == Err::<ForceSample, Error>(
                short_word(old(c).offset() as int, old(c).rest(), 0),
            ),
    {
        let force = c.point()?;
        let moment = c.point()?;
        let center_of_pressure = c.point()?;
        Ok(ForceSample { force, moment, center_of_pressure })
    }

    #[verifier::rlimit(100)]
    #[verifier::spinoff_prover]
    pub fn decode(c: &mut Cursor<'_>) -> (r: Result<Self>)
        ensures
            r is Ok <==> force_ok(old(c).byte_order(), old(c).rest()),
            r matches Ok(m) ==> force_of(old(c).byte_order(), old(c).rest(), m),
            r matches Err(e) ==> e == force_error(
                old(c).byte_order(),
                old(c).rest(),
                old(c).offset() as int,
            ),
    {
        let ghost s = c.rest();
        let ghost order = c.byte_order();
        let ghost start = c.offset() as int;
        if c.remaining() == 0 {
            return Ok(Force { plates: Vec::new() });
        }
        let plate_count = match c.u32() {
            Ok(v) => v,
            Err(e) => return Err(e),
        };
        // 12 byte plate header: id, sample count, force number.
        match c.check_count(plate_count, 12) {
            Ok(()) => {},
            Err(e) => return Err(e),
        }
        let ghost next = force_next(order, s);
        let ghost fits = force_fits(order, s);

        let mut plates: Vec<ForcePlate> = c.vec_with_capacity(plate_count);
        let mut j: u32 = 0;
        while j < plate_count
            invariant
                0 <= j <= plate_count,
                s == old(c).rest(),
                order == old(c).byte_order(),
                start == old(c).offset(),
                s.len() >= 4,
                plate_count == u32_at(order, s, 0),
                12 * plate_count <= s.len() - 4,
                next == force_next(order, s),
                fits == force_fits(order, s),
                c.input().len() - start == s.len(),
                0 <= start,
                c.byte_order() == order,
                s == c.input().subrange(start, c.input().len() as int),
                c.offset() == start + record_offset(4, next, j as nat),
                4 <= record_offset(4, next, j as nat) <= s.len(),
                records_fit(4, next, fits, j as nat),
                plates@.len() == j,
                forall|i: int|
                    0 <= i < j ==> force_plate_of(
                        order,
                        s,
                        record_offset(4, next, i as nat),
                        #[trigger] plates@[i],
                    ),
            decreases plate_count - j,
        {
            let ghost o = record_offset(4, next, j as nat);
            proof {
                lemma_fields_shift(order, c.input(), start, s, o);
                lemma_fields_shift(order, c.input(), start, s, o + 4);
                lemma_fields_shift(order, c.input(), start, s, o + 8);
            }
            let id = match c.u32() {
                Ok(v) => v,
                Err(e) => {
                    proof {
                        assert(!fits(o));
                        lemma_records_unfit(4, next, fits, plate_count as nat, j as nat);
                        lemma_force_error_at(order, s, start, j as nat);
                    }
                    return Err(e);
                },
            };
            let sample_count = match c.u32() {
                Ok(v) => v,
                Err(e) => {
                    proof {
                        assert(!fits(o));
                        lemma_records_unfit(4, next, fits, plate_count as nat, j as nat);
                        lemma_force_error_at(order, s, start, j as nat);
                    }
                    return Err(e);
                },
            };
            let force_number = match c.u32() {
                Ok(v) => v,
                Err(e) => {
                    proof {
                        assert(!fits(o));
                        lemma_records_unfit(4, next, fits, plate_count as nat, j as nat);
                        lemma_force_error_at(order, s, start, j as nat);
                    }
                    return Err(e);
                },
            };
            match c.check_count(sample_count, Self::SAMPLE_BYTES) {
                Ok(()) => {},
                Err(e) => {
                    proof {
                        assert(!fits(o));
                        lemma_records_unfit(4, next, fits, plate_count as nat, j as nat);
                        lemma_force_error_at(order, s, start, j as nat);
                    }
                    return Err(e);
                },
            }
            assert(fits(o));
            let mut samples: Vec<ForceSample> = Vec::with_capacity(sample_count as usize);
            let mut k: u32 = 0;
            while k < sample_count
                invariant
                    0 <= k <= sample_count,
                    0 <= o,
                    o + 12 + 36 * sample_count <= s.len(),
                    c.input().len() - start == s.len(),
                    0 <= start,
                    c.byte_order() == order,
                    s == c.input().subrange(start, c.input().len() as int),
                    c.offset() == start + o + 12 + 36 * k,
                    samples@.len() == k,
                    forall|i: int|
                        0 <= i < k ==> #[trigger] samples@[i] == force_sample_at(
                            order,
                            s,
                            o + 12 + 36 * i,
                        ),
                decreases sample_count - k,
            {
                let ghost at = o + 12 + 36 * k;
                proof {
                    lemma_fields_shift(order, c.input(), start, s, at);
                    lemma_fields_shift(order, c.input(), start, s, at + 12);
                    lemma_fields_shift(order, c.input(), start, s, at + 24);
                }
                let sample = match Self::sample(c) {
                    Ok(v) => v,
                    Err(e) => return Err(e),
                };
                samples.push(sample);
                k = k + 1;
            }
            let plate = ForcePlate { id, force_number, samples };
            assert(force_plate_of(order, s, o, plate));
            plates.push(plate);
            proof {
                assert(records_fit(4, next, fits, (j + 1) as nat));
            }
            j = j + 1;
        }
        Ok(Force { plates })
    }

    pub fn decode_single(c: &mut Cursor<'_>) -> (r: Result<Self>)
        ensures
            r is Ok <==> force_single_ok(old(c).byte_order(), old(c).rest()),
            r matches Ok(m) ==> force_single_of(old(c).byte_order(), old(c).rest(), m),
            r matches Err(e) ==> e == count_error(
                old(c).byte_order(),
                old(c).rest(),
                old(c).offset() as int,
                40,
            ),
    {
        let ghost s = c.rest();
        let ghost order = c.byte_order();
        let ghost start = c.offset() as int;
        if c.remaining() == 0 {
            return Ok(Force { plates: Vec::new() });
        }
        let plate_count = match c.u32() {
            Ok(v) => v,
            Err(e) => return Err(e),
        };
        match c.check_count(plate_count, 4 + Self::SAMPLE_BYTES) {
            Ok(()) => {},
            Err(e) => return Err(e),
        }

        let mut plates: Vec<ForcePlate> = c.vec_with_capacity(plate_count);
        let mut j: u32 = 0;
        while j < plate_count
            invariant
                0 <= j <= plate_count,
                s.len() >= 4,
                plate_count == u32_at(order, s, 0),
                40 * plate_count <= s.len() - 4,
                c.input().len() - start == s.len(),
                0 <= start,
                c.byte_order() == order,
                s == c.input().subrange(start, c.input().len() as int),
                c.offset() == start + 4 + 40 * j,
                plates@.len() == j,
                forall|i: int|
                    0 <= i < j ==> {
                        let p = #[trigger] plates@[i];
                        &&& p.id == u32_at(order, s, 4 + 40 * i)
                        &&& p.force_number == 0
                        &&& p.samples@ == seq![force_sample_at(order, s, 4 + 40 * i + 4)]
                    },
            decreases plate_count - j,
        {
            let ghost at = 4 + 40 * j;
            proof {
                lemma_fields_shift(order, c.input(), start, s, at);
                lemma_fields_shift(order, c.input(), start, s, at + 4);
                lemma_fields_shift(order, c.input(), start, s, at + 16);
                lemma_fields_shift(order, c.input(), start, s, at + 28);
            }
            let id = match c.u32() {
                Ok(v) => v,
                Err(e) => return Err(e),
            };
            let sample = match Self::sample(c) {
                Ok(v) => v,
                Err(e) => return Err(e),
            };
            let mut samples: Vec<ForceSample> = Vec::new();
            samples.push(sample);
            assert(samples@ =~= seq![force_sample_at(order, s, at + 4)]);
            plates.push(ForcePlate { id, force_number: 0, samples });
            j = j + 1;
        }
        Ok(Force { plates })
    }
}

} // verus!
