//! Skeleton component.

use vstd::prelude::*;

use crate::components::Point;
use crate::cursor::{
    count_error, lemma_fields_shift, lemma_words_shift, point_at, short_count, short_read, u32_at,
    words_at, ByteOrder, Cursor,
};
use crate::error::{Error, Result};
use crate::records::{
    first_bad_offset, lemma_first_bad_offset, lemma_records_unfit, record_offset, records_fit,
};

verus! {

/// A skeleton segment.
///
/// Position and rotation are relative to the parent segment unless the stream
/// was requested with the `global` option, in which case they are in the global
/// coordinate system. Floats are kept as their bit patterns.
#[derive(Debug, Clone, Copy, PartialEq, Eq, Default)]
pub struct Segment {
    pub id: u32,
    pub position: Point,
    /// Rotation quaternion as (x, y, z, w).
    pub rotation: [u32; 4],
}

#[derive(Debug, Clone, PartialEq, Eq, Default)]
pub struct Skeleton {
    pub segments: Vec<Segment>,
}

#[derive(Debug, Clone, PartialEq, Eq, Default)]
pub struct Skeletons {
    pub skeletons: Vec<Skeleton>,
}

/// `seg` is the segment whose 32 byte record starts at byte `i` of `s`.
pub open spec fn segment_at(order: ByteOrder, s: Seq<u8>, i: int, seg: Segment) -> bool {
    &&& seg.id == u32_at(order, s, i)
    &&& seg.position == point_at(order, s, i + 4)
    &&& seg.rotation@ == words_at(order, s, i + 16, 4)
}

/// Where the skeleton after one starting at `o` starts: a 4 byte segment
/// count and 32 bytes per segment.
pub open spec fn skeleton_next(order: ByteOrder, s: Seq<u8>) -> spec_fn(int) -> int {
    |o: int| o + 4 + 32 * u32_at(order, s, o)
}

/// True when the skeleton starting at `o` lies within `s`.
pub open spec fn skeleton_fits(order: ByteOrder, s: Seq<u8>) -> spec_fn(int) -> bool {
    |o: int| o + 4 <= s.len() && 32 * u32_at(order, s, o) <= s.len() - (o + 4)
}

/// True when `s` is a well-formed skeleton payload.
pub open spec fn skeletons_ok(order: ByteOrder, s: Seq<u8>) -> bool {
    s.len() == 0 || {
        &&& 4 <= s.len()
        &&& 4 * u32_at(order, s, 0) <= s.len() - 4
        &&& records_fit(
            4,
            skeleton_next(order, s),
            skeleton_fits(order, s),
            u32_at(order, s, 0) as nat,
        )
    }
}

/// `sk` is the skeleton starting at byte `o` of `s`.
pub open spec fn skeleton_of(order: ByteOrder, s: Seq<u8>, o: int, sk: Skeleton) -> bool {
    &&& sk.segments@.len() == u32_at(order, s, o)
    &&& forall|k: int|
        0 <= k < sk.segments@.len() ==> segment_at(
            order,
            s,
            o + 4 + 32 * k,
            #[trigger] sk.segments@[k],
        )
}

/// `m` is what the well-formed payload `s` decodes to.
pub open spec fn skeletons_of(order: ByteOrder, s: Seq<u8>, m: Skeletons) -> bool {
    if s.len() == 0 {
        m.skeletons@.len() == 0
    } else {
        &&& m.skeletons@.len() == u32_at(order, s, 0)
        &&& forall|j: int|
            0 <= j < m.skeletons@.len() ==> skeleton_of(
                order,
                s,
                record_offset(4, skeleton_next(order, s), j as nat),
                #[trigger] m.skeletons@[j],
            )
    }
}

/// What decoding a malformed skeleton payload reports, for a cursor at
/// offset `start`: a cut short or impossible skeleton count, or, on the
/// first skeleton that does not fit, its cut short segment count or its
/// segment count that does not fit.
pub open spec fn skeletons_error(order: ByteOrder, s: Seq<u8>, start: int) -> Error {
    if s.len() < 4 || 4 * u32_at(order, s, 0) > s.len() - 4 {
        count_error(order, s, start, 4)
    } else {
        let o = first_bad_offset(
            4,
            skeleton_next(order, s),
            skeleton_fits(order, s),
            u32_at(order, s, 0) as nat,
        );
        if o + 4 > s.len() {
            short_read(start, s, o, 4)
        } else {
            short_count(start, s, o + 4, u32_at(order, s, o) as int, 32)
        }
    }
}

impl Skeletons {
    /// id, 3 position floats and 4 rotation floats.
    pub const SEGMENT_BYTES: usize = 32;

    pub fn decode(c: &mut Cursor<'_>) -> (r: Result<Self>)
        ensures
            r is Ok <==> skeletons_ok(old(c).byte_order(), old(c).rest()),
            r matches Ok(m) ==> skeletons_of(old(c).byte_order(), old(c).rest(), m),
            r matches Err(e) ==> e == skeletons_error(
                old(c).byte_order(),
                old(c).rest(),
                old(c).offset() as int,
            ),
    {
        let ghost s = c.rest();
        let ghost order = c.byte_order();
        let ghost start = c.offset() as int;
        if c.remaining() == 0 {
            return Ok(Skeletons { skeletons: Vec::new() });
        }
        let skeleton_count = match c.u32() {
            Ok(v) => v,
            Err(e) => return Err(e),
        };
        match c.check_count(skeleton_count, 4) {
            Ok(()) => {},
            Err(e) => return Err(e),
        }
        let ghost next = skeleton_next(order, s);
        let ghost fits = skeleton_fits(order, s);

        let mut skeletons: Vec<Skeleton> = c.vec_with_capacity(skeleton_count);
        let mut j: u32 = 0;
        while j < skeleton_count
            invariant
                0 <= j <= skeleton_count,
                s == old(c).rest(),
                order == old(c).byte_order(),
                start == old(c).offset(),
                s.len() >= 4,
                skeleton_count == u32_at(order, s, 0),
                4 * skeleton_count <= s.len() - 4,
                next == skeleton_next(order, s),
                fits == skeleton_fits(order, s),
                c.input().len() - start == s.len(),
                0 <= start,
                c.byte_order() == order,
                s == c.input().subrange(start, c.input().len() as int),
                c.offset() == start + record_offset(4, next, j as nat),
                4 <= record_offset(4, next, j as nat) <= s.len(),
                records_fit(4, next, fits, j as nat),
                skeletons@.len() == j,
                forall|i: int|
                    0 <= i < j ==> skeleton_of(
                        order,
                        s,
                        record_offset(4, next, i as nat),
                        #[trigger] skeletons@[i],
                    ),
            decreases skeleton_count - j,
        {
            let ghost o = record_offset(4, next, j as nat);
            proof {
                lemma_fields_shift(order, c.input(), start, s, o);
                if !fits(o) {
                    lemma_records_unfit(4, next, fits, skeleton_count as nat, j as nat);
                    lemma_first_bad_offset(4, next, fits, skeleton_count as nat, j as nat);
                }
            }
            let segment_count = match c.u32() {
                Ok(v) => v,
                Err(e) => return Err(e),
            };
            match c.check_count(segment_count, Self::SEGMENT_BYTES) {
                Ok(()) => {},
                Err(e) => return Err(e),
            }
            let mut segments: Vec<Segment> = Vec::with_capacity(segment_count as usize);
            let mut k: u32 = 0;
            while k < segment_count
                invariant
                    0 <= k <= segment_count,
                    0 <= o,
                    o + 4 + 32 * segment_count <= s.len(),
                    c.input().len() - start == s.len(),
                    0 <= start,
                    c.byte_order() == order,
                    s == c.input().subrange(start, c.input().len() as int),
                    c.offset() == start + o + 4 + 32 * k,
                    segments@.len() == k,
                    forall|i: int|
                        0 <= i < k ==> segment_at(order, s, o + 4 + 32 * i, #[trigger] segments@[i]),
                decreases segment_count - k,
            {
                let ghost at = o + 4 + 32 * k;
                proof {
                    lemma_fields_shift(order, c.input(), start, s, at);
                    lemma_fields_shift(order, c.input(), start, s, at + 4);
                    lemma_words_shift(order, c.input(), start, s, at + 16, 4);
                }
                let id = match c.u32() {
                    Ok(v) => v,
                    Err(e) => return Err(e),
                };
                let position = match c.point() {
                    Ok(v) => v,
                    Err(e) => return Err(e),
                };
                let rotation = match c.words4() {
                    Ok(v) => v,
                    Err(e) => return Err(e),
                };
                let segment = Segment { id, position, rotation };
                assert(segment_at(order, s, at, segment));
                segments.push(segment);
                k = k + 1;
            }
            let skeleton = Skeleton { segments };
            assert(skeleton_of(order, s, o, skeleton));
            skeletons.push(skeleton);
            proof {
                assert(records_fit(4, next, fits, (j + 1) as nat));
            }
            j = j + 1;
        }
        Ok(Skeletons { skeletons })
    }
}

} // verus!
