//! Image, gaze vector and eye tracker components.

use vstd::prelude::*;

use crate::components::Point;
use crate::cursor::{
    count_error, lemma_fields_shift, lemma_words_shift, point_at, short_count, short_word, u32_at,
    ByteOrder, Cursor,
};
use crate::error::{Error, Result};
use crate::records::{
    first_bad_offset, first_unfit, lemma_first_bad_offset, lemma_first_unfit, lemma_records_unfit,
    record_offset, records_fit,
};
use crate::text::{decimal, push_decimal, push_str};

verus! {

/// Pixel format of a streamed camera image.
#[derive(Debug, Clone, Copy, PartialEq, Eq, Structural, Default)]
pub enum ImageFormat {
    #[default]
    RawGrayscale,
    RawBgr,
    Jpg,
    Png,
    Unknown(u32),
}

/// The image format a wire code names.
pub open spec fn image_format_of(value: u32) -> ImageFormat {
    if value == 0 {
        ImageFormat::RawGrayscale
    } else if value == 1 {
        ImageFormat::RawBgr
    } else if value == 2 {
        ImageFormat::Jpg
    } else if value == 3 {
        ImageFormat::Png
    } else {
        ImageFormat::Unknown(value)
    }
}

impl From<u32> for ImageFormat {
    fn from(value: u32) -> (r: Self) {
        match value {
            0 => ImageFormat::RawGrayscale,
            1 => ImageFormat::RawBgr,
            2 => ImageFormat::Jpg,
            3 => ImageFormat::Png,
            other => ImageFormat::Unknown(other),
        }
    }
}

impl vstd::std_specs::convert::FromSpecImpl<u32> for ImageFormat {
    open spec fn obeys_from_spec() -> bool {
        true
    }

    open spec fn from_spec(value: u32) -> Self {
        image_format_of(value)
    }
}

/// A single camera image. The crop fields are float bit patterns.
#[derive(Debug, Clone, PartialEq, Eq, Default)]
pub struct Image {
    pub camera_id: u32,
    pub format: ImageFormat,
    pub width: u32,
    pub height: u32,
    pub crop_left: u32,
    pub crop_top: u32,
    pub crop_right: u32,
    pub crop_bottom: u32,
    pub data: Vec<u8>,
}

/// How an image format is written in an image summary: its variant name,
/// and the code of an unknown format in brackets.
pub open spec fn image_format_text(f: ImageFormat) -> Seq<char> {
    match f {
        ImageFormat::RawGrayscale => "RawGrayscale"@,
        ImageFormat::RawBgr => "RawBgr"@,
        ImageFormat::Jpg => "Jpg"@,
        ImageFormat::Png => "Png"@,
        ImageFormat::Unknown(v) => "Unknown("@ + decimal(v as nat) + ")"@,
    }
}

/// The summary of an image: camera, format, size and payload length.
pub open spec fn image_text(img: Image) -> Seq<char> {
    "image camera "@ + decimal(img.camera_id as nat) + " "@ + image_format_text(img.format) + " "@
        + decimal(img.width as nat) + "x"@ + decimal(img.height as nat) + " ("@ + decimal(
        img.data@.len(),
    ) + " bytes)"@
}

impl Image {
    /// A one line summary. It reports the payload length rather than the
    /// bytes; a single video frame is easily megabytes and printing it is
    /// never useful.
    pub fn to_string(&self) -> (r: String)
        ensures
            r@ == image_text(*self),
    {
        let mut s = String::new();
        push_str(&mut s, "image camera ");
        push_decimal(&mut s, self.camera_id as u64);
        push_str(&mut s, " ");
        match self.format {
            ImageFormat::RawGrayscale => push_str(&mut s, "RawGrayscale"),
            ImageFormat::RawBgr => push_str(&mut s, "RawBgr"),
            ImageFormat::Jpg => push_str(&mut s, "Jpg"),
            ImageFormat::Png => push_str(&mut s, "Png"),
            ImageFormat::Unknown(v) => {
                push_str(&mut s, "Unknown(");
                push_decimal(&mut s, v as u64);
                push_str(&mut s, ")");
            },
        }
        push_str(&mut s, " ");
        push_decimal(&mut s, self.width as u64);
        push_str(&mut s, "x");
        push_decimal(&mut s, self.height as u64);
        push_str(&mut s, " (");
        push_decimal(&mut s, self.data.len() as u64);
        push_str(&mut s, " bytes)");
        assert(s@ =~= image_text(*self));
        s
    }
}

#[derive(Debug, Clone, PartialEq, Eq, Default)]
pub struct Images {
    pub images: Vec<Image>,
}

/// Where the image after one starting at `o` starts: a 36 byte header and the
/// payload whose length the header's last field gives.
pub open spec fn image_next(order: ByteOrder, s: Seq<u8>) -> spec_fn(int) -> int {
    |o: int| o + 36 + u32_at(order, s, o + 32)
}

/// True when the image starting at `o` lies within `s`.
pub open spec fn image_fits(order: ByteOrder, s: Seq<u8>) -> spec_fn(int) -> bool {
    |o: int| o + 36 <= s.len() && u32_at(order, s, o + 32) <= s.len() - (o + 36)
}

/// True when `s` is a well-formed image payload.
pub open spec fn images_ok(order: ByteOrder, s: Seq<u8>) -> bool {
    s.len() == 0 || {
        &&& 4 <= s.len()
        &&& 36 * u32_at(order, s, 0) <= s.len() - 4
        &&& records_fit(4, image_next(order, s), image_fits(order, s), u32_at(order, s, 0) as nat)
    }
}

/// `img` is the image starting at byte `o` of `s`.
pub open spec fn image_of(order: ByteOrder, s: Seq<u8>, o: int, img: Image) -> bool {
    &&& img.camera_id == u32_at(order, s, o)
    &&& img.format == image_format_of(u32_at(order, s, o + 4))
    &&& img.width == u32_at(order, s, o + 8)
    &&& img.height == u32_at(order, s, o + 12)
    &&& img.crop_left == u32_at(order, s, o + 16)
    &&& img.crop_top == u32_at(order, s, o + 20)
    &&& img.crop_right == u32_at(order, s, o + 24)
    &&& img.crop_bottom == u32_at(order, s, o + 28)
    &&& img.data@ == s.subrange(o + 36, o + 36 + u32_at(order, s, o + 32))
}

/// `m` is what the well-formed payload `s` decodes to.
pub open spec fn images_of(order: ByteOrder, s: Seq<u8>, m: Images) -> bool {
    if s.len() == 0 {
        m.images@.len() == 0
    } else {
        &&& m.images@.len() == u32_at(order, s, 0)
        &&& forall|j: int|
            0 <= j < m.images@.len() ==> image_of(
                order,
                s,
                record_offset(4, image_next(order, s), j as nat),
                #[trigger] m.images@[j],
            )
    }
}

/// The message reported for an image whose payload overruns the component.
pub open spec fn image_overflow_text(camera_id: u32, size: u32, remaining: nat) -> Seq<char> {
    "image from camera "@ + decimal(camera_id as nat) + " claims "@ + decimal(size as nat)
        + " bytes, "@ + decimal(remaining) + " remaining"@
}

/// Where the first image of a malformed image payload that does not fit
/// starts.
pub open spec fn image_first_bad(order: ByteOrder, s: Seq<u8>) -> int {
    record_offset(
        4,
        image_next(order, s),
        first_unfit(4, image_next(order, s), image_fits(order, s), u32_at(order, s, 0) as nat),
    )
}

/// True when a malformed image payload fails on an image whose header is
/// complete but whose pixel data overruns the payload.
pub open spec fn image_overrun(order: ByteOrder, s: Seq<u8>) -> bool {
    &&& 4 <= s.len()
    &&& 36 * u32_at(order, s, 0) <= s.len() - 4
    &&& image_first_bad(order, s) + 36 <= s.len()
}

/// What decoding a malformed image payload reports when it is cut short,
/// for a cursor at offset `start`: a cut short or impossible image count, or
/// the first image whose header is cut short.
pub open spec fn image_short_error(order: ByteOrder, s: Seq<u8>, start: int) -> Error {
    if s.len() < 4 || 36 * u32_at(order, s, 0) > s.len() - 4 {
        count_error(order, s, start, 36)
    } else {
        short_word(start, s, image_first_bad(order, s))
    }
}

/// What decoding a malformed payload of devices with samples of
/// `sample_bytes` bytes reports, for a cursor at offset `start`: a cut short
/// or impossible device count, or, on the first device that does not fit,
/// its cut short sample count or sample number, or its sample count that
/// does not fit.
pub open spec fn sampled_error(order: ByteOrder, s: Seq<u8>, start: int, sample_bytes: int) -> Error {
    if s.len() < 4 || 4 * u32_at(order, s, 0) > s.len() - 4 {
        count_error(order, s, start, 4)
    } else {
        let o = first_bad_offset(
            4,
            sampled_next(order, s, sample_bytes),
            sampled_fits(order, s, sample_bytes),
            u32_at(order, s, 0) as nat,
        );
        if o + 8 > s.len() {
            short_word(start, s, o)
        } else {
            short_count(start, s, o + 8, u32_at(order, s, o) as int, sample_bytes)
        }
    }
}

fn image_overflow_message(camera_id: u32, size: u32, remaining: usize) -> (m: String)
    ensures
        m@ == image_overflow_text(camera_id, size, remaining as nat),
{
    let mut m = String::new();
    push_str(&mut m, "image from camera ");
    push_decimal(&mut m, camera_id as u64);
    push_str(&mut m, " claims ");
    push_decimal(&mut m, size as u64);
    push_str(&mut m, " bytes, ");
    push_decimal(&mut m, remaining as u64);
    push_str(&mut m, " remaining");
    assert(m@ =~= image_overflow_text(camera_id, size, remaining as nat));
    m
}

impl Images {
    /// id, format, width, height, four crop floats and the payload length.
    pub const HEADER_BYTES: usize = 36;

    #[verifier::rlimit(100)]
    #[verifier::spinoff_prover]
    pub fn decode(c: &mut Cursor<'_>) -> (r: Result<Self>)
        ensures
            r is Ok <==> images_ok(old(c).byte_order(), old(c).rest()),
            r matches Ok(m) ==> images_of(old(c).byte_order(), old(c).rest(), m),
            r matches Err(e) ==> ({
                let s = old(c).rest();
                let order = old(c).byte_order();
                let o = image_first_bad(order, s);
                if image_overrun(order, s) {
                    e is MalformedFrame && e->MalformedFrame_0@ == image_overflow_text(
                        u32_at(order, s, o),
                        u32_at(order, s, o + 32),
                        (s.len() - (o + 36)) as nat,
                    )
                } else {
                    e == image_short_error(order, s, old(c).offset() as int)
                }
            }),
    {
        let ghost s = c.rest();
        let ghost order = c.byte_order();
        let ghost start = c.offset() as int;
        if c.remaining() == 0 {
            return Ok(Images { images: Vec::new() });
        }
        let image_count = match c.u32() {
            Ok(v) => v,
            Err(e) => return Err(e),
        };
        match c.check_count(image_count, Self::HEADER_BYTES) {
            Ok(()) => {},
            Err(e) => return Err(e),
        }
        let ghost next = image_next(order, s);
        let ghost fits = image_fits(order, s);

        let mut images: Vec<Image> = c.vec_with_capacity(image_count);
        let mut j: u32 = 0;
        while j < image_count
            invariant
                0 <= j <= image_count,
                s == old(c).rest(),
                order == old(c).byte_order(),
                start == old(c).offset(),
                s.len() >= 4,
                image_count == u32_at(order, s, 0),
                36 * image_count <= s.len() - 4,
                next == image_next(order, s),
                fits == image_fits(order, s),
                c.input().len() - start == s.len(),
                0 <= start,
                c.byte_order() == order,
                s == c.input().subrange(start, c.input().len() as int),
                c.offset() == start + record_offset(4, next, j as nat),
                4 <= record_offset(4, next, j as nat) <= s.len(),
                records_fit(4, next, fits, j as nat),
                images@.len() == j,
                forall|i: int|
                    0 <= i < j ==> image_of(
                        order,
                        s,
                        record_offset(4, next, i as nat),
                        #[trigger] images@[i],
                    ),
            decreases image_count - j,
        {
            let ghost o = record_offset(4, next, j as nat);
            proof {
                if !fits(o) {
                    lemma_records_unfit(4, next, fits, image_count as nat, j as nat);
                    lemma_first_unfit(4, next, fits, image_count as nat, j as nat);
                }
            }
            let header = match c.words9() {
                Ok(v) => v,
                Err(e) => return Err(e),
            };
            proof {
                lemma_words_shift(order, c.input(), start, s, o, 9);
                assert(header@[8] == u32_at(order, s, o + 32));
            }
            let camera_id = header[0];
            let format = ImageFormat::from(header[1]);
            let size = header[8];
            let remaining = c.remaining();
            if size as usize > remaining {
                return Err(
                    Error::MalformedFrame(image_overflow_message(camera_id, size, remaining)),
                );
            }
            let data = match c.bytes(size as usize) {
                Ok(v) => v,
                Err(e) => return Err(e),
            };
            proof {
                assert(data@ =~= s.subrange(o + 36, o + 36 + u32_at(order, s, o + 32)));
            }
            let image = Image {
                camera_id,
                format,
                width: header[2],
                height: header[3],
                crop_left: header[4],
                crop_top: header[5],
                crop_right: header[6],
                crop_bottom: header[7],
                data,
            };
            assert(image_of(order, s, o, image));
            images.push(image);
            proof {
                assert(records_fit(4, next, fits, (j + 1) as nat));
            }
            j = j + 1;
        }
        Ok(Images { images })
    }
}

/// One gaze vector sample: a direction and the eye position it originates from.
#[derive(Debug, Clone, Copy, PartialEq, Eq, Structural, Default)]
pub struct GazeVectorSample {
    pub gaze: Point,
    pub position: Point,
}

#[derive(Debug, Clone, PartialEq, Eq, Default)]
pub struct GazeVector {
    pub sample_number: u32,
    pub samples: Vec<GazeVectorSample>,
}

#[derive(Debug, Clone, PartialEq, Eq, Default)]
pub struct GazeVectors {
    pub devices: Vec<GazeVector>,
}

/// Where the device after one starting at `o` starts, for samples of
/// `sample_bytes` bytes each.
///
/// A device reporting zero samples omits the sample number field entirely,
/// so its record is 4 bytes rather than 8.
pub open spec fn sampled_next(order: ByteOrder, s: Seq<u8>, sample_bytes: int) -> spec_fn(
    int,
) -> int {
    |o: int|
        if u32_at(order, s, o) == 0 {
            o + 4
        } else {
            o + 8 + sample_bytes * u32_at(order, s, o)
        }
}

/// True when the device starting at `o` lies within `s`.
pub open spec fn sampled_fits(order: ByteOrder, s: Seq<u8>, sample_bytes: int) -> spec_fn(
    int,
) -> bool {
    |o: int|
        o + 4 <= s.len() && (u32_at(order, s, o) == 0 || (o + 8 <= s.len() && sample_bytes
            * u32_at(order, s, o) <= s.len() - (o + 8)))
}

/// True when `s` is a well-formed payload of devices with samples of
/// `sample_bytes` bytes.
pub open spec fn sampled_ok(order: ByteOrder, s: Seq<u8>, sample_bytes: int) -> bool {
    s.len() == 0 || {
        &&& 4 <= s.len()
        &&& 4 * u32_at(order, s, 0) <= s.len() - 4
        &&& records_fit(
            4,
            sampled_next(order, s, sample_bytes),
            sampled_fits(order, s, sample_bytes),
            u32_at(order, s, 0) as nat,
        )
    }
}

/// The gaze sample whose 24 byte record starts at byte `i` of `s`.
pub open spec fn gaze_sample_at(order: ByteOrder, s: Seq<u8>, i: int) -> GazeVectorSample {
    GazeVectorSample { gaze: point_at(order, s, i), position: point_at(order, s, i + 12) }
}

/// `d` is the gaze vector device starting at byte `o` of `s`.
pub open spec fn gaze_vector_of(order: ByteOrder, s: Seq<u8>, o: int, d: GazeVector) -> bool {
    if u32_at(order, s, o) == 0 {
        d.sample_number == 0 && d.samples@.len() == 0
    } else {
        &&& d.sample_number == u32_at(order, s, o + 4)
        &&& d.samples@.len() == u32_at(order, s, o)
        &&& forall|k: int|
            0 <= k < d.samples@.len() ==> #[trigger] d.samples@[k] == gaze_sample_at(
                order,
                s,
                o + 8 + 24 * k,
            )
    }
}

/// `m` is what the well-formed payload `s` decodes to.
pub open spec fn gaze_vectors_of(order: ByteOrder, s: Seq<u8>, m: GazeVectors) -> bool {
    if s.len() == 0 {
        m.devices@.len() == 0
    } else {
        &&& m.devices@.len() == u32_at(order, s, 0)
        &&& forall|j: int|
            0 <= j < m.devices@.len() ==> gaze_vector_of(
                order,
                s,
                record_offset(4, sampled_next(order, s, 24), j as nat),
                #[trigger] m.devices@[j],
            )
    }
}

impl GazeVectors {
    pub const SAMPLE_BYTES: usize = 24;

    /// Decodes gaze vectors.
    ///
    /// A device reporting zero samples omits the sample number field entirely,
    /// so its record is 4 bytes rather than 8. Getting that stride wrong
    /// desynchronises every device that follows.
    #[verifier::rlimit(100)]
    #[verifier::spinoff_prover]
    pub fn decode(c: &mut Cursor<'_>) -> (r: Result<Self>)
        ensures
            r is Ok <==> sampled_ok(old(c).byte_order(), old(c).rest(), 24),
            r matches Ok(m) ==> gaze_vectors_of(old(c).byte_order(), old(c).rest(), m),
            r matches Err(e) ==> e == sampled_error(
                old(c).byte_order(),
                old(c).rest(),
                old(c).offset() as int,
                24,
            ),
    {
        let ghost s = c.rest();
        let ghost order = c.byte_order();
        let ghost start = c.offset() as int;
        if c.remaining() == 0 {
            return Ok(GazeVectors { devices: Vec::new() });
        }
        let device_count = match c.u32() {
            Ok(v) => v,
            Err(e) => return Err(e),
        };
        match c.check_count(device_count, 4) {
            Ok(()) => {},
            Err(e) => return Err(e),
        }
        let ghost next = sampled_next(order, s, 24);
        let ghost fits = sampled_fits(order, s, 24);

        let mut devices: Vec<GazeVector> = c.vec_with_capacity(device_count);
        let mut j: u32 = 0;
        while j < device_count
            invariant
                0 <= j <= device_count,
                s == old(c).rest(),
                order == old(c).byte_order(),
                start == old(c).offset(),
                s.len() >= 4,
                device_count == u32_at(order, s, 0),
                4 * device_count <= s.len() - 4,
                next == sampled_next(order, s, 24),
                fits == sampled_fits(order, s, 24),
                c.input().len() - start == s.len(),
                0 <= start,
                c.byte_order() == order,
                s == c.input().subrange(start, c.input().len() as int),
                c.offset() == start + record_offset(4, next, j as nat),
                4 <= record_offset(4, next, j as nat) <= s.len(),
                records_fit(4, next, fits, j as nat),
                devices@.len() == j,
                forall|i: int|
                    0 <= i < j ==> gaze_vector_of(
                        order,
                        s,
                        record_offset(4, next, i as nat),
                        #[trigger] devices@[i],
                    ),
            decreases device_count - j,
        {
            let ghost o = record_offset(4, next, j as nat);
            proof {
                lemma_fields_shift(order, c.input(), start, s, o);
                lemma_fields_shift(order, c.input(), start, s, o + 4);
                if !fits(o) {
                    lemma_records_unfit(4, next, fits, device_count as nat, j as nat);
                    lemma_first_bad_offset(4, next, fits, device_count as nat, j as nat);
                }
            }
            let sample_count = match c.u32() {
                Ok(v) => v,
                Err(e) => return Err(e),
            };
            if sample_count == 0 {
                let device = GazeVector { sample_number: 0, samples: Vec::new() };
                assert(gaze_vector_of(order, s, o, device));
                devices.push(device);
                proof {
                    assert(records_fit(4, next, fits, (j + 1) as nat));
                }
                j = j + 1;
                continue;
            }
            let sample_number = match c.u32() {
                Ok(v) => v,
                Err(e) => return Err(e),
            };
            match c.check_count(sample_count, Self::SAMPLE_BYTES) {
                Ok(()) => {},
                Err(e) => return Err(e),
            }
            let mut samples: Vec<GazeVectorSample> = Vec::with_capacity(sample_count as usize);
            let mut k: u32 = 0;
            while k < sample_count
                invariant
                    0 <= k <= sample_count,
                    0 <= o,
                    o + 8 + 24 * sample_count <= s.len(),
                    c.input().len() - start == s.len(),
                    0 <= start,
                    c.byte_order() == order,
                    s == c.input().subrange(start, c.input().len() as int),
                    c.offset() == start + o + 8 + 24 * k,
                    samples@.len() == k,
                    forall|i: int|
                        0 <= i < k ==> #[trigger] samples@[i] == gaze_sample_at(
                            order,
                            s,
                            o + 8 + 24 * i,
                        ),
                decreases sample_count - k,
            {
                let ghost at = o + 8 + 24 * k;
                proof {
                    lemma_fields_shift(order, c.input(), start, s, at);
                    lemma_fields_shift(order, c.input(), start, s, at + 12);
                }
                let gaze = match c.point() {
                    Ok(v) => v,
                    Err(e) => return Err(e),
                };
                let position = match c.point() {
                    Ok(v) => v,
                    Err(e) => return Err(e),
                };
                samples.push(GazeVectorSample { gaze, position });
                k = k + 1;
            }
            let device = GazeVector { sample_number, samples };
            assert(gaze_vector_of(order, s, o, device));
            devices.push(device);
            proof {
                assert(records_fit(4, next, fits, (j + 1) as nat));
            }
            j = j + 1;
        }
        Ok(GazeVectors { devices })
    }
}

/// One eye tracker sample: left and right pupil diameters as float bit
/// patterns.
#[derive(Debug, Clone, Copy, PartialEq, Eq, Structural, Default)]
pub struct EyeTrackerSample {
    pub left_pupil_diameter: u32,
    pub right_pupil_diameter: u32,
}

#[derive(Debug, Clone, PartialEq, Eq, Default)]
pub struct EyeTracker {
    pub sample_number: u32,
    pub samples: Vec<EyeTrackerSample>,
}

#[derive(Debug, Clone, PartialEq, Eq, Default)]
pub struct EyeTrackers {
    pub devices: Vec<EyeTracker>,
}

/// The eye tracker sample whose 8 byte record starts at byte `i` of `s`.
pub open spec fn eye_sample_at(order: ByteOrder, s: Seq<u8>, i: int) -> EyeTrackerSample {
    EyeTrackerSample {
        left_pupil_diameter: u32_at(order, s, i),
        right_pupil_diameter: u32_at(order, s, i + 4),
    }
}

/// `d` is the eye tracker starting at byte `o` of `s`.
pub open spec fn eye_tracker_of(order: ByteOrder, s: Seq<u8>, o: int, d: EyeTracker) -> bool {
    if u32_at(order, s, o) == 0 {
        d.sample_number == 0 && d.samples@.len() == 0
    } else {
        &&& d.sample_number == u32_at(order, s, o + 4)
        &&& d.samples@.len() == u32_at(order, s, o)
        &&& forall|k: int|
            0 <= k < d.samples@.len() ==> #[trigger] d.samples@[k] == eye_sample_at(
                order,
                s,
                o + 8 + 8 * k,
            )
    }
}

/// `m` is what the well-formed payload `s` decodes to.
pub open spec fn eye_trackers_of(order: ByteOrder, s: Seq<u8>, m: EyeTrackers) -> bool {
    if s.len() == 0 {
        m.devices@.len() == 0
    } else {
        &&& m.devices@.len() == u32_at(order, s, 0)
        &&& forall|j: int|
            0 <= j < m.devices@.len() ==> eye_tracker_of(
                order,
                s,
                record_offset(4, sampled_next(order, s, 8), j as nat),
                #[trigger] m.devices@[j],
            )
    }
}

impl EyeTrackers {
    pub const SAMPLE_BYTES: usize = 8;

    /// As with gaze vectors, a device reporting zero samples omits the sample
    /// number field.
    #[verifier::rlimit(100)]
    #[verifier::spinoff_prover]
    pub fn decode(c: &mut Cursor<'_>) -> (r: Result<Self>)
        ensures
            r is Ok <==> sampled_ok(old(c).byte_order(), old(c).rest(), 8),
            r matches Ok(m) ==> eye_trackers_of(old(c).byte_order(), old(c).rest(), m),
            r matches Err(e) ==> e == sampled_error(
                old(c).byte_order(),
                old(c).rest(),
                old(c).offset() as int,
                8,
            ),
    {
        let ghost s = c.rest();
        let ghost order = c.byte_order();
        let ghost start = c.offset() as int;
        if c.remaining() == 0 {
            return Ok(EyeTrackers { devices: Vec::new() });
        }
        let device_count = match c.u32() {
            Ok(v) => v,
            Err(e) => return Err(e),
        };
        match c.check_count(device_count, 4) {
            Ok(()) => {},
            Err(e) => return Err(e),
        }
        let ghost next = sampled_next(order, s, 8);
        let ghost fits = sampled_fits(order, s, 8);

        let mut devices: Vec<EyeTracker> = c.vec_with_capacity(device_count);
        let mut j: u32 = 0;
        while j < device_count
            invariant
                0 <= j <= device_count,
                s == old(c).rest(),
                order == old(c).byte_order(),
                start == old(c).offset(),
                s.len() >= 4,
                device_count == u32_at(order, s, 0),
                4 * device_count <= s.len() - 4,
                next == sampled_next(order, s, 8),
                fits == sampled_fits(order, s, 8),
                c.input().len() - start == s.len(),
                0 <= start,
                c.byte_order() == order,
                s == c.input().subrange(start, c.input().len() as int),
                c.offset() == start + record_offset(4, next, j as nat),
                4 <= record_offset(4, next, j as nat) <= s.len(),
                records_fit(4, next, fits, j as nat),
                devices@.len() == j,
                forall|i: int|
                    0 <= i < j ==> eye_tracker_of(
                        order,
                        s,
                        record_offset(4, next, i as nat),
                        #[trigger] devices@[i],
                    ),
            decreases device_count - j,
        {
            let ghost o = record_offset(4, next, j as nat);
            proof {
                lemma_fields_shift(order, c.input(), start, s, o);
                lemma_fields_shift(order, c.input(), start, s, o + 4);
                if !fits(o) {
                    lemma_records_unfit(4, next, fits, device_count as nat, j as nat);
                    lemma_first_bad_offset(4, next, fits, device_count as nat, j as nat);
                }
            }
            let sample_count = match c.u32() {
                Ok(v) => v,
                Err(e) => return Err(e),
            };
            if sample_count == 0 {
                let device = EyeTracker { sample_number: 0, samples: Vec::new() };
                assert(eye_tracker_of(order, s, o, device));
                devices.push(device);
                proof {
                    assert(records_fit(4, next, fits, (j + 1) as nat));
                }
                j = j + 1;
                continue;
            }
            let sample_number = match c.u32() {
                Ok(v) => v,
                Err(e) => return Err(e),
            };
            match c.check_count(sample_count, Self::SAMPLE_BYTES) {
                Ok(()) => {},
                Err(e) => return Err(e),
            }
            let mut samples: Vec<EyeTrackerSample> = Vec::with_capacity(sample_count as usize);
            let mut k: u32 = 0;
            while k < sample_count
                invariant
                    0 <= k <= sample_count,
                    0 <= o,
                    o + 8 + 8 * sample_count <= s.len(),
                    c.input().len() - start == s.len(),
                    0 <= start,
                    c.byte_order() == order,
                    s == c.input().subrange(start, c.input().len() as int),
                    c.offset() == start + o + 8 + 8 * k,
                    samples@.len() == k,
                    forall|i: int|
                        0 <= i < k ==> #[trigger] samples@[i] == eye_sample_at(
                            order,
                            s,
                            o + 8 + 8 * i,
                        ),
                decreases sample_count - k,
            {
                let ghost at = o + 8 + 8 * k;
                proof {
                    lemma_fields_shift(order, c.input(), start, s, at);
                    lemma_fields_shift(order, c.input(), start, s, at + 4);
                }
                let left_pupil_diameter = match c.float_bits() {
                    Ok(v) => v,
                    Err(e) => return Err(e),
                };
                let right_pupil_diameter = match c.float_bits() {
                    Ok(v) => v,
                    Err(e) => return Err(e),
                };
                samples.push(EyeTrackerSample { left_pupil_diameter, right_pupil_diameter });
                k = k + 1;
            }
            let device = EyeTracker { sample_number, samples };
            assert(eye_tracker_of(order, s, o, device));
            devices.push(device);
            proof {
                assert(records_fit(4, next, fits, (j + 1) as nat));
            }
            j = j + 1;
        }
        Ok(EyeTrackers { devices })
    }
}

} // verus!
