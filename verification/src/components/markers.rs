//! 3D and 2D marker components.

use vstd::prelude::*;

use crate::components::Point;
use crate::cursor::{
    lemma_fields_shift, point_at, short_count, short_read, u16_at, u32_at, ByteOrder, Cursor,
};
use crate::error::{Error, Result};
use crate::records::{
    first_unfit, lemma_first_unfit, lemma_records_fit_prefix, lemma_records_unfit, record_offset,
    records_fit,
};

verus! {

/// A labelled or unlabelled 3D marker.
///
/// `id` is only populated for the NoLabels variants. Labelled markers carry no
/// identifier on the wire: they arrive in the same order as the labels in the
/// 3D settings XML, so index N corresponds to label N. `residual` is the bit
/// pattern of a single precision float.
#[derive(Debug, Clone, Copy, PartialEq, Eq, Structural, Default)]
pub struct Marker {
    pub position: Point,
    pub residual: Option<u32>,
    pub id: Option<u32>,
}

/// The 3D marker component, shared by all four labelled/residual variants.
#[derive(Debug, Clone, PartialEq, Eq, Default)]
pub struct Markers3d {
    pub drop_rate: u16,
    pub out_of_sync_rate: u16,
    pub markers: Vec<Marker>,
}

/// Bytes per 3D marker: three floats, plus an optional id and residual.
pub open spec fn marker3d_stride(with_id: bool, with_residual: bool) -> int {
    12 + (if with_id { 4int } else { 0 }) + (if with_residual { 4int } else { 0 })
}

/// The 3D marker whose record starts at byte `i` of `s`.
pub open spec fn marker3d_at(
    order: ByteOrder,
    s: Seq<u8>,
    i: int,
    with_id: bool,
    with_residual: bool,
) -> Marker {
    Marker {
        position: point_at(order, s, i),
        id: if with_id {
            Some(u32_at(order, s, i + 12))
        } else {
            None
        },
        residual: if with_residual {
            Some(u32_at(order, s, i + 12 + if with_id { 4int } else { 0 }))
        } else {
            None
        },
    }
}

/// True when `s` is a well-formed 3D marker payload: empty, or an 8 byte
/// header followed by as many marker records as the header counts.
pub open spec fn markers3d_ok(order: ByteOrder, s: Seq<u8>, with_id: bool, with_residual: bool) -> bool {
    s.len() == 0 || (8 <= s.len() && u32_at(order, s, 0) * marker3d_stride(with_id, with_residual)
        <= s.len() - 8)
}

/// `m` is what the well-formed payload `s` decodes to.
pub open spec fn markers3d_of(
    order: ByteOrder,
    s: Seq<u8>,
    with_id: bool,
    with_residual: bool,
    m: Markers3d,
) -> bool {
    if s.len() == 0 {
        m.drop_rate == 0 && m.out_of_sync_rate == 0 && m.markers@.len() == 0
    } else {
        &&& m.drop_rate == u16_at(order, s, 4)
        &&& m.out_of_sync_rate == u16_at(order, s, 6)
        &&& m.markers@.len() == u32_at(order, s, 0)
        &&& forall|k: int|
            0 <= k < m.markers@.len() ==> #[trigger] m.markers@[k] == marker3d_at(
                order,
                s,
                8 + k * marker3d_stride(with_id, with_residual),
                with_id,
                with_residual,
            )
    }
}

/// What decoding a malformed payload of a count, a drop rate, an out of sync
/// rate and fixed-size records reports, for a cursor at offset `start`: the
/// first header field that is cut short, or the count that does not fit.
pub open spec fn counted_records_error(order: ByteOrder, s: Seq<u8>, start: int, stride: int) -> Error {
    if s.len() < 4 {
        short_read(start, s, 0, 4)
    } else if s.len() < 6 {
        short_read(start, s, 4, 2)
    } else if s.len() < 8 {
        short_read(start, s, 6, 2)
    } else {
        short_count(start, s, 8, u32_at(order, s, 0) as int, stride)
    }
}

pub proof fn lemma_stride_step(k: int, n: int, stride: int)
    requires
        0 <= k < n,
        0 <= stride,
    ensures
        (k + 1) * stride == k * stride + stride,
        k * stride + stride <= n * stride,
        0 <= k * stride,
{
    assert((k + 1) * stride == k * stride + stride) by (nonlinear_arith);
    assert(k * stride + stride <= n * stride) by (nonlinear_arith)
        requires
            k + 1 <= n,
            0 <= stride,
    ;
    assert(0 <= k * stride) by (nonlinear_arith)
        requires
            0 <= k,
            0 <= stride,
    ;
}

impl Markers3d {
    pub fn decode(c: &mut Cursor<'_>, with_id: bool, with_residual: bool) -> (r: Result<Self>)
        ensures
            r is Ok <==> markers3d_ok(old(c).byte_order(), old(c).rest(), with_id, with_residual),
            r matches Ok(m) ==> markers3d_of(
                old(c).byte_order(),
                old(c).rest(),
                with_id,
                with_residual,
                m,
            ),
            r matches Err(e) ==> e == counted_records_error(
                old(c).byte_order(),
                old(c).rest(),
                old(c).offset() as int,
                marker3d_stride(with_id, with_residual),
            ),
    {
        let ghost s = c.rest();
        let ghost order = c.byte_order();
        let ghost start = c.offset();
        if c.remaining() == 0 {
            return Ok(Markers3d { drop_rate: 0, out_of_sync_rate: 0, markers: Vec::new() });
        }
        let count = match c.u32() {
            Ok(v) => v,
            Err(e) => return Err(e),
        };
        let drop_rate = match c.u16() {
            Ok(v) => v,
            Err(e) => return Err(e),
        };
        let out_of_sync_rate = match c.u16() {
            Ok(v) => v,
            Err(e) => return Err(e),
        };

        // 3 floats for the position, plus an optional id and residual.
        let stride: usize = 12 + (if with_id { 4 } else { 0 }) + (if with_residual { 4 } else { 0 });
        c.check_count(count, stride)?;

        let mut markers: Vec<Marker> = c.vec_with_capacity(count);
        let mut k: u32 = 0;
        while k < count
            invariant
                0 <= k <= count,
                s.len() >= 8,
                count == u32_at(order, s, 0),
                stride as int == marker3d_stride(with_id, with_residual),
                count * stride <= s.len() - 8,
                c.input().len() - start == s.len(),
                c.byte_order() == order,
                start + 8 + k * stride == c.offset(),
                s == c.input().subrange(start as int, c.input().len() as int),
                markers@.len() == k,
                forall|j: int|
                    0 <= j < k ==> #[trigger] markers@[j] == marker3d_at(
                        order,
                        s,
                        8 + j * stride,
                        with_id,
                        with_residual,
                    ),
            decreases count - k,
        {
            proof {
                lemma_stride_step(k as int, count as int, stride as int);
            }
            let ghost at = c.offset();
            let position = c.point()?;
            let id = if with_id {
                Some(c.u32()?)
            } else {
                None
            };
            let residual = if with_residual {
                Some(c.float_bits()?)
            } else {
                None
            };
            let marker = Marker { position, residual, id };
            proof {
                let rel = 8 + k * stride;
                assert(at == start + rel);
                assert(marker == marker3d_at(order, s, rel, with_id, with_residual));
            }
            markers.push(marker);
            k = k + 1;
        }
        Ok(Markers3d { drop_rate, out_of_sync_rate, markers })
    }
}


/// A marker as seen by one camera, in sensor subpixel units.
#[derive(Debug, Clone, Copy, PartialEq, Eq, Structural, Default)]
pub struct Marker2d {
    pub x: u32,
    pub y: u32,
    pub diameter_x: u16,
    pub diameter_y: u16,
}

/// The 2D markers seen by a single camera.
#[derive(Debug, Clone, PartialEq, Eq, Default)]
pub struct Camera2d {
    pub status: u8,
    pub markers: Vec<Marker2d>,
}

/// The 2D marker component, used for both raw and linearized streams.
#[derive(Debug, Clone, PartialEq, Eq, Default)]
pub struct Markers2d {
    pub drop_rate: u16,
    pub out_of_sync_rate: u16,
    pub cameras: Vec<Camera2d>,
}

/// The 2D marker whose 12 byte record starts at byte `i` of `s`.
pub open spec fn marker2d_at(order: ByteOrder, s: Seq<u8>, i: int) -> Marker2d {
    Marker2d {
        x: u32_at(order, s, i),
        y: u32_at(order, s, i + 4),
        diameter_x: u16_at(order, s, i + 8),
        diameter_y: u16_at(order, s, i + 10),
    }
}

/// Where the camera block after one starting at `o` starts: a 4 byte marker
/// count, a 1 byte status and 12 bytes per marker.
pub open spec fn camera2d_next(order: ByteOrder, s: Seq<u8>) -> spec_fn(int) -> int {
    |o: int| o + 5 + 12 * u32_at(order, s, o)
}

/// True when the camera block starting at `o` lies within `s`.
pub open spec fn camera2d_fits(order: ByteOrder, s: Seq<u8>) -> spec_fn(int) -> bool {
    |o: int| o + 5 <= s.len() && 12 * u32_at(order, s, o) <= s.len() - (o + 5)
}

/// Where camera block `j` starts.
pub open spec fn camera2d_offset(order: ByteOrder, s: Seq<u8>, j: nat) -> int {
    record_offset(8, camera2d_next(order, s), j)
}

/// True when `s` is a well-formed 2D marker payload.
pub open spec fn markers2d_ok(order: ByteOrder, s: Seq<u8>) -> bool {
    s.len() == 0 || {
        &&& 8 <= s.len()
        &&& 5 * u32_at(order, s, 0) <= s.len() - 8
        &&& records_fit(
            8,
            camera2d_next(order, s),
            camera2d_fits(order, s),
            u32_at(order, s, 0) as nat,
        )
    }
}

/// What decoding a malformed 2D marker payload reports, for a cursor at
/// offset `start`: a cut short header, a camera count that does not fit, or,
/// on the first camera block that does not fit, its cut short header or its
/// marker count that does not fit.
pub open spec fn markers2d_error(order: ByteOrder, s: Seq<u8>, start: int) -> Error {
    if s.len() < 4 {
        short_read(start, s, 0, 4)
    } else if s.len() < 6 {
        short_read(start, s, 4, 2)
    } else if s.len() < 8 {
        short_read(start, s, 6, 2)
    } else if 5 * u32_at(order, s, 0) > s.len() - 8 {
        short_count(start, s, 8, u32_at(order, s, 0) as int, 5)
    } else {
        let o = camera2d_offset(
            order,
            s,
            first_unfit(8, camera2d_next(order, s), camera2d_fits(order, s), u32_at(order, s, 0) as nat),
        );
        if o + 4 > s.len() {
            short_read(start, s, o, 4)
        } else if o + 5 > s.len() {
            short_read(start, s, o + 4, 1)
        } else {
            short_count(start, s, o + 5, u32_at(order, s, o) as int, 12)
        }
    }
}

/// On a payload whose first `j` camera blocks fit and whose block `j` does
/// not, the error is that block's.
proof fn lemma_markers2d_error_at(order: ByteOrder, s: Seq<u8>, start: int, j: nat)
    requires
        8 <= s.len(),
        5 * u32_at(order, s, 0) <= s.len() - 8,
        j < u32_at(order, s, 0),
        records_fit(8, camera2d_next(order, s), camera2d_fits(order, s), j),
        !camera2d_fits(order, s)(camera2d_offset(order, s, j)),
    ensures
        ({
            let o = camera2d_offset(order, s, j);
            markers2d_error(order, s, start) == if o + 4 > s.len() {
                short_read(start, s, o, 4)
            } else if o + 5 > s.len() {
                short_read(start, s, o + 4, 1)
            } else {
                short_count(start, s, o + 5, u32_at(order, s, o) as int, 12)
            }
        }),
{
    lemma_first_unfit(
        8,
        camera2d_next(order, s),
        camera2d_fits(order, s),
        u32_at(order, s, 0) as nat,
        j,
    );
}

/// `cam` is the camera block starting at byte `o` of `s`.
pub open spec fn camera2d_of(order: ByteOrder, s: Seq<u8>, o: int, cam: Camera2d) -> bool {
    &&& cam.status == s[o + 4]
    &&& cam.markers@.len() == u32_at(order, s, o)
    &&& forall|k: int|
        0 <= k < cam.markers@.len() ==> #[trigger] cam.markers@[k] == marker2d_at(
            order,
            s,
            o + 5 + 12 * k,
        )
}

/// `m` is what the well-formed payload `s` decodes to.
pub open spec fn markers2d_of(order: ByteOrder, s: Seq<u8>, m: Markers2d) -> bool {
    if s.len() == 0 {
        m.drop_rate == 0 && m.out_of_sync_rate == 0 && m.cameras@.len() == 0
    } else {
        &&& m.drop_rate == u16_at(order, s, 4)
        &&& m.out_of_sync_rate == u16_at(order, s, 6)
        &&& m.cameras@.len() == u32_at(order, s, 0)
        &&& forall|j: int|
            0 <= j < m.cameras@.len() ==> camera2d_of(
                order,
                s,
                camera2d_offset(order, s, j as nat),
                #[trigger] m.cameras@[j],
            )
    }
}

impl Markers2d {
    /// Each camera block is a 4 byte marker count plus a 1 byte status flag,
    /// followed by 12 bytes per marker.
    pub const CAMERA_HEADER: usize = 5;

    pub const MARKER_BYTES: usize = 12;

    #[verifier::rlimit(100)]
    #[verifier::spinoff_prover]
    pub fn decode(c: &mut Cursor<'_>) -> (r: Result<Self>)
        ensures
            r is Ok <==> markers2d_ok(old(c).byte_order(), old(c).rest()),
            r matches Ok(m) ==> markers2d_of(old(c).byte_order(), old(c).rest(), m),
            r matches Err(e) ==> e == markers2d_error(
                old(c).byte_order(),
                old(c).rest(),
                old(c).offset() as int,
            ),
    {
        let ghost s = c.rest();
        let ghost order = c.byte_order();
        let ghost start = c.offset() as int;
        if c.remaining() == 0 {
            return Ok(Markers2d { drop_rate: 0, out_of_sync_rate: 0, cameras: Vec::new() });
        }
        let camera_count = match c.u32() {
            Ok(v) => v,
            Err(e) => return Err(e),
        };
        let drop_rate = match c.u16() {
            Ok(v) => v,
            Err(e) => return Err(e),
        };
        let out_of_sync_rate = match c.u16() {
            Ok(v) => v,
            Err(e) => return Err(e),
        };
        match c.check_count(camera_count, Self::CAMERA_HEADER) {
            Ok(()) => {},
            Err(e) => return Err(e),
        }
        let ghost next = camera2d_next(order, s);
        let ghost fits = camera2d_fits(order, s);

        let mut cameras: Vec<Camera2d> = c.vec_with_capacity(camera_count);
        let mut j: u32 = 0;
        while j < camera_count
            invariant
                0 <= j <= camera_count,
                s == old(c).rest(),
                order == old(c).byte_order(),
                start == old(c).offset(),
                s.len() >= 8,
                camera_count == u32_at(order, s, 0),
                5 * camera_count <= s.len() - 8,
                next == camera2d_next(order, s),
                fits == camera2d_fits(order, s),
                c.input().len() - start == s.len(),
                0 <= start,
                c.byte_order() == order,
                s == c.input().subrange(start, c.input().len() as int),
                c.offset() == start + record_offset(8, next, j as nat),
                8 <= record_offset(8, next, j as nat) <= s.len(),
                records_fit(8, next, fits, j as nat),
                cameras@.len() == j,
                forall|i: int|
                    0 <= i < j ==> camera2d_of(
                        order,
                        s,
                        camera2d_offset(order, s, i as nat),
                        #[trigger] cameras@[i],
                    ),
            decreases camera_count - j,
        {
            let ghost o = record_offset(8, next, j as nat);
            let marker_count = match c.u32() {
                Ok(v) => v,
                Err(e) => {
                    proof {
                        assert(!fits(o));
                        lemma_records_unfit(8, next, fits, camera_count as nat, j as nat);
                        lemma_markers2d_error_at(order, s, start, j as nat);
                    }
                    return Err(e);
                },
            };
            proof {
                lemma_fields_shift(order, c.input(), start, s, o);
            }
            let status = match c.u8() {
                Ok(v) => v,
                Err(e) => {
                    proof {
                        assert(!fits(o));
                        lemma_records_unfit(8, next, fits, camera_count as nat, j as nat);
                        lemma_markers2d_error_at(order, s, start, j as nat);
                    }
                    return Err(e);
                },
            };
            match c.check_count(marker_count, Self::MARKER_BYTES) {
                Ok(()) => {},
                Err(e) => {
                    proof {
                        assert(!fits(o));
                        lemma_records_unfit(8, next, fits, camera_count as nat, j as nat);
                        lemma_markers2d_error_at(order, s, start, j as nat);
                    }
                    return Err(e);
                },
            }
            assert(fits(o));
            let mut markers: Vec<Marker2d> = c.vec_with_capacity(marker_count);
            let mut k: u32 = 0;
            while k < marker_count
                invariant
                    0 <= k <= marker_count,
                    o + 5 + 12 * marker_count <= s.len(),
                    0 <= o,
                    c.input().len() - start == s.len(),
                    0 <= start,
                    c.byte_order() == order,
                    s == c.input().subrange(start, c.input().len() as int),
                    c.offset() == start + o + 5 + 12 * k,
                    markers@.len() == k,
                    forall|i: int|
                        0 <= i < k ==> #[trigger] markers@[i] == marker2d_at(order, s, o + 5 + 12 * i),
                decreases marker_count - k,
            {
                let x = match c.u32() {
                    Ok(v) => v,
                    Err(e) => return Err(e),
                };
                let y = match c.u32() {
                    Ok(v) => v,
                    Err(e) => return Err(e),
                };
                let diameter_x = match c.u16() {
                    Ok(v) => v,
                    Err(e) => return Err(e),
                };
                let diameter_y = match c.u16() {
                    Ok(v) => v,
                    Err(e) => return Err(e),
                };
                markers.push(Marker2d { x, y, diameter_x, diameter_y });
                k = k + 1;
            }
            let camera = Camera2d { status, markers };
            assert(camera2d_of(order, s, o, camera));
            cameras.push(camera);
            proof {
                assert(records_fit(8, next, fits, (j + 1) as nat));
                assert(record_offset(8, next, (j + 1) as nat) == o + 5 + 12 * marker_count);
            }
            j = j + 1;
        }
        Ok(Markers2d { drop_rate, out_of_sync_rate, cameras })
    }
}

} // verus!
