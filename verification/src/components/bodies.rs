//! 6DOF rigid body components.

use vstd::prelude::*;

use crate::components::markers::{counted_records_error, lemma_stride_step};
use crate::components::Point;
use crate::cursor::{
    lemma_u16_bytes_read, lemma_u32_bytes_roundtrip, lemma_words_bytes_read, point_at, spec_u16_bytes,
    spec_u32_bytes, u16_at, u32_at, words_at, words_bytes, ByteOrder, Cursor,
};
use crate::error::{Error, Result};

verus! {

/// A rigid body expressed as a position and a row-major 3x3 rotation matrix,
/// each float kept as its bit pattern.
#[derive(Debug, Clone, Copy, PartialEq, Eq, Default)]
pub struct Body6d {
    pub position: Point,
    pub rotation: [u32; 9],
    pub residual: Option<u32>,
}

/// The 6DOF matrix component. Bodies arrive in the order they appear in the 6D
/// settings XML.
#[derive(Debug, Clone, PartialEq, Eq, Default)]
pub struct Bodies6d {
    pub drop_rate: u16,
    pub out_of_sync_rate: u16,
    pub bodies: Vec<Body6d>,
}

/// Bytes per 6DOF body: 3 position floats, 9 rotation floats and an optional
/// residual.
pub open spec fn body6d_stride(with_residual: bool) -> int {
    48 + if with_residual {
        4int
    } else {
        0
    }
}

/// `b` is the 6DOF body whose record starts at byte `i` of `s`.
pub open spec fn body6d_at(order: ByteOrder, s: Seq<u8>, i: int, with_residual: bool, b: Body6d) -> bool {
    &&& b.position == point_at(order, s, i)
    &&& b.rotation@ == words_at(order, s, i + 12, 9)
    &&& b.residual == if with_residual {
        Some(u32_at(order, s, i + 48))
    } else {
        None
    }
}

/// True when `s` is a well-formed 6DOF payload: empty, or an 8 byte header
/// followed by as many body records as the header counts.
pub open spec fn bodies6d_ok(order: ByteOrder, s: Seq<u8>, with_residual: bool) -> bool {
    s.len() == 0 || (8 <= s.len() && u32_at(order, s, 0) * body6d_stride(with_residual) <= s.len()
        - 8)
}

/// `m` is what the well-formed payload `s` decodes to.
pub open spec fn bodies6d_of(order: ByteOrder, s: Seq<u8>, with_residual: bool, m: Bodies6d) -> bool {
    if s.len() == 0 {
        m.drop_rate == 0 && m.out_of_sync_rate == 0 && m.bodies@.len() == 0
    } else {
        &&& m.drop_rate == u16_at(order, s, 4)
        &&& m.out_of_sync_rate == u16_at(order, s, 6)
        &&& m.bodies@.len() == u32_at(order, s, 0)
        &&& forall|k: int|
            0 <= k < m.bodies@.len() ==> body6d_at(
                order,
                s,
                8 + k * body6d_stride(with_residual),
                with_residual,
                #[trigger] m.bodies@[k],
            )
    }
}

impl Bodies6d {
    pub fn decode(c: &mut Cursor<'_>, with_residual: bool) -> (r: Result<Self>)
        ensures
            r is Ok <==> bodies6d_ok(old(c).byte_order(), old(c).rest(), with_residual),
            r matches Ok(m) ==> bodies6d_of(old(c).byte_order(), old(c).rest(), with_residual, m),
            r matches Err(e) ==> e == counted_records_error(
                old(c).byte_order(),
                old(c).rest(),
                old(c).offset() as int,
                body6d_stride(with_residual),
            ),
    {
        let ghost s = c.rest();
        let ghost order = c.byte_order();
        let ghost start = c.offset() as int;
        if c.remaining() == 0 {
            return Ok(Bodies6d { drop_rate: 0, out_of_sync_rate: 0, bodies: Vec::new() });
        }
        let count = match c.u32() {
            Ok(v) => v,
            Err(e) => return Err(e),
        };
        let drop_rate = match c.u16() {
            Ok(v) => v,
            Err(e) => return Err(e),
        };
        let out_of_sync_rate = match c.u16() {
            Ok(v) => v,
            Err(e) => return Err(e),
        };

        // 3 position floats plus 9 rotation floats.
        let stride: usize = 48 + if with_residual {
            4
        } else {
            0
        };
        match c.check_count(count, stride) {
            Ok(()) => {},
            Err(e) => return Err(e),
        }

        let mut bodies: Vec<Body6d> = c.vec_with_capacity(count);
        let mut k: u32 = 0;
        while k < count
            invariant
                0 <= k <= count,
                s.len() >= 8,
                count == u32_at(order, s, 0),
                stride as int == body6d_stride(with_residual),
                count * stride <= s.len() - 8,
                c.input().len() - start == s.len(),
                0 <= start,
                c.byte_order() == order,
                s == c.input().subrange(start, c.input().len() as int),
                start + 8 + k * stride == c.offset(),
                bodies@.len() == k,
                forall|j: int|
                    0 <= j < k ==> body6d_at(
                        order,
                        s,
                        8 + j * stride,
                        with_residual,
                        #[trigger] bodies@[j],
                    ),
            decreases count - k,
        {
            proof {
                lemma_stride_step(k as int, count as int, stride as int);
            }
            let ghost rel = 8 + k * stride;
            let position = match c.point() {
                Ok(v) => v,
                Err(e) => return Err(e),
            };
            let rotation = match c.words9() {
                Ok(v) => v,
                Err(e) => return Err(e),
            };
            let residual = if with_residual {
                match c.float_bits() {
                    Ok(v) => Some(v),
                    Err(e) => return Err(e),
                }
            } else {
                None
            };
            let body = Body6d { position, rotation, residual };
            proof {
                crate::cursor::lemma_fields_shift(order, c.input(), start, s, rel);
                crate::cursor::lemma_fields_shift(order, c.input(), start, s, rel + 48);
                crate::cursor::lemma_words_shift(order, c.input(), start, s, rel + 12, 9);
            }
            assert(body6d_at(order, s, rel, with_residual, body));
            bodies.push(body);
            k = k + 1;
        }
        Ok(Bodies6d { drop_rate, out_of_sync_rate, bodies })
    }
}

/// A rigid body expressed as a position and three Euler angles, each float
/// kept as its bit pattern.
///
/// The angle convention is reported by the General settings XML, so it is not
/// fixed by this type.
#[derive(Debug, Clone, Copy, PartialEq, Eq, Default)]
pub struct Body6dEuler {
    pub position: Point,
    pub angles: [u32; 3],
    pub residual: Option<u32>,
}

/// The 6DOF Euler component.
#[derive(Debug, Clone, PartialEq, Eq, Default)]
pub struct Bodies6dEuler {
    pub drop_rate: u16,
    pub out_of_sync_rate: u16,
    pub bodies: Vec<Body6dEuler>,
}

/// Bytes per Euler body: 3 position floats, 3 angle floats and an optional
/// residual.
pub open spec fn body6d_euler_stride(with_residual: bool) -> int {
    24 + if with_residual {
        4int
    } else {
        0
    }
}

/// `b` is the Euler body whose record starts at byte `i` of `s`.
pub open spec fn body6d_euler_at(
    order: ByteOrder,
    s: Seq<u8>,
    i: int,
    with_residual: bool,
    b: Body6dEuler,
) -> bool {
    &&& b.position == point_at(order, s, i)
    &&& b.angles@ == words_at(order, s, i + 12, 3)
    &&& b.residual == if with_residual {
        Some(u32_at(order, s, i + 24))
    } else {
        None
    }
}

/// True when `s` is a well-formed Euler payload.
pub open spec fn bodies6d_euler_ok(order: ByteOrder, s: Seq<u8>, with_residual: bool) -> bool {
    s.len() == 0 || (8 <= s.len() && u32_at(order, s, 0) * body6d_euler_stride(with_residual)
        <= s.len() - 8)
}

/// `m` is what the well-formed payload `s` decodes to.
pub open spec fn bodies6d_euler_of(
    order: ByteOrder,
    s: Seq<u8>,
    with_residual: bool,
    m: Bodies6dEuler,
) -> bool {
    if s.len() == 0 {
        m.drop_rate == 0 && m.out_of_sync_rate == 0 && m.bodies@.len() == 0
    } else {
        &&& m.drop_rate == u16_at(order, s, 4)
        &&& m.out_of_sync_rate == u16_at(order, s, 6)
        &&& m.bodies@.len() == u32_at(order, s, 0)
        &&& forall|k: int|
            0 <= k < m.bodies@.len() ==> body6d_euler_at(
                order,
                s,
                8 + k * body6d_euler_stride(with_residual),
                with_residual,
                #[trigger] m.bodies@[k],
            )
    }
}

impl Bodies6dEuler {
    pub fn decode(c: &mut Cursor<'_>, with_residual: bool) -> (r: Result<Self>)
        ensures
            r is Ok <==> bodies6d_euler_ok(old(c).byte_order(), old(c).rest(), with_residual),
            r matches Ok(m) ==> bodies6d_euler_of(
                old(c).byte_order(),
                old(c).rest(),
                with_residual,
                m,
            ),
            r matches Err(e) ==> e == counted_records_error(
                old(c).byte_order(),
                old(c).rest(),
                old(c).offset() as int,
                body6d_euler_stride(with_residual),
            ),
    {
        let ghost s = c.rest();
        let ghost order = c.byte_order();
        let ghost start = c.offset() as int;
        if c.remaining() == 0 {
            return Ok(Bodies6dEuler { drop_rate: 0, out_of_sync_rate: 0, bodies: Vec::new() });
        }
        let count = match c.u32() {
            Ok(v) => v,
            Err(e) => return Err(e),
        };
        let drop_rate = match c.u16() {
            Ok(v) => v,
            Err(e) => return Err(e),
        };
        let out_of_sync_rate = match c.u16() {
            Ok(v) => v,
            Err(e) => return Err(e),
        };

        // 3 position floats plus 3 angle floats.
        let stride: usize = 24 + if with_residual {
            4
        } else {
            0
        };
        match c.check_count(count, stride) {
            Ok(()) => {},
            Err(e) => return Err(e),
        }

        let mut bodies: Vec<Body6dEuler> = c.vec_with_capacity(count);
        let mut k: u32 = 0;
        while k < count
            invariant
                0 <= k <= count,
                s.len() >= 8,
                count == u32_at(order, s, 0),
                stride as int == body6d_euler_stride(with_residual),
                count * stride <= s.len() - 8,
                c.input().len() - start == s.len(),
                0 <= start,
                c.byte_order() == order,
                s == c.input().subrange(start, c.input().len() as int),
                start + 8 + k * stride == c.offset(),
                bodies@.len() == k,
                forall|j: int|
                    0 <= j < k ==> body6d_euler_at(
                        order,
                        s,
                        8 + j * stride,
                        with_residual,
                        #[trigger] bodies@[j],
                    ),
            decreases count - k,
        {
            proof {
                lemma_stride_step(k as int, count as int, stride as int);
            }
            let ghost rel = 8 + k * stride;
            let position = match c.point() {
                Ok(v) => v,
                Err(e) => return Err(e),
            };
            let a0 = match c.float_bits() {
                Ok(v) => v,
                Err(e) => return Err(e),
            };
            let a1 = match c.float_bits() {
                Ok(v) => v,
                Err(e) => return Err(e),
            };
            let a2 = match c.float_bits() {
                Ok(v) => v,
                Err(e) => return Err(e),
            };
            let residual = if with_residual {
                match c.float_bits() {
                    Ok(v) => Some(v),
                    Err(e) => return Err(e),
                }
            } else {
                None
            };
            let angles = [a0, a1, a2];
            let body = Body6dEuler { position, angles, residual };
            proof {
                crate::cursor::lemma_fields_shift(order, c.input(), start, s, rel);
                crate::cursor::lemma_fields_shift(order, c.input(), start, s, rel + 24);
                crate::cursor::lemma_words_shift(order, c.input(), start, s, rel + 12, 3);
                assert(angles@ =~= words_at(order, c.input(), start + rel + 12, 3));
            }
            assert(body6d_euler_at(order, s, rel, with_residual, body));
            bodies.push(body);
            k = k + 1;
        }
        Ok(Bodies6dEuler { drop_rate, out_of_sync_rate, bodies })
    }
}

/// The words of one body record as the wire lays them out: position, then
/// the rest of the record, then the residual when there is one.
pub open spec fn body_record(position: Point, rest: Seq<u32>, with_residual: bool, residual: u32) -> Seq<u32> {
    seq![position.x, position.y, position.z] + rest + if with_residual {
        seq![residual]
    } else {
        Seq::empty()
    }
}

/// Round trip against the wire layout of the 6DOF matrix component: when
/// the `k`th body record of a payload (after the 8 byte header) is written
/// as a position's three floats followed by a row-major 3x3 rotation
/// matrix's nine floats, and a residual when the component has one, the
/// `k`th body decoded from that payload has exactly that position, matrix
/// and residual.
pub proof fn lemma_body6d_round_trip(
    order: ByteOrder,
    s: Seq<u8>,
    with_residual: bool,
    m: Bodies6d,
    k: int,
    position: Point,
    rotation: Seq<u32>,
    residual: u32,
)
    requires
        bodies6d_of(order, s, with_residual, m),
        0 <= k < m.bodies@.len(),
        rotation.len() == 9,
        ({
            let record = body_record(position, rotation, with_residual, residual);
            let at = 8 + k * (4 * record.len());
            &&& at + 4 * record.len() <= s.len()
            &&& s.subrange(at, at + 4 * record.len()) == words_bytes(order, record)
        }),
    ensures
        m.bodies@[k].position == position,
        m.bodies@[k].rotation@ == rotation,
        m.bodies@[k].residual == if with_residual {
            Some(residual)
        } else {
            None
        },
{
    let record = body_record(position, rotation, with_residual, residual);
    let at = 8 + k * (4 * record.len());
    lemma_words_bytes_read(order, record, s, at);
    assert(s.len() > 0);
    assert(at == 8 + k * body6d_stride(with_residual));
    let b = m.bodies@[k];
    assert(body6d_at(order, s, at, with_residual, b));
    assert(record[0] == position.x && record[1] == position.y && record[2] == position.z);
    assert(u32_at(order, s, at + 4 * 0) == record[0]);
    assert(u32_at(order, s, at + 4 * 1) == record[1]);
    assert(u32_at(order, s, at + 4 * 2) == record[2]);
    assert forall|j: int| 0 <= j < 9 implies b.rotation@[j] == rotation[j] by {
        assert(record[3 + j] == rotation[j]);
        assert(u32_at(order, s, at + 4 * (3 + j)) == record[3 + j]);
        assert(words_at(order, s, at + 12, 9)[j] == u32_at(order, s, at + 12 + 4 * j));
    }
    assert(b.rotation@ =~= rotation);
    if with_residual {
        assert(record[12] == residual);
        assert(u32_at(order, s, at + 4 * 12) == record[12]);
    }
}

/// Round trip against the wire layout of the 6DOF Euler component: when the
/// `k`th body record of a payload (after the 8 byte header) is written as a
/// position's three floats followed by the three Euler angles, and a
/// residual when the component has one, the `k`th body decoded from that
/// payload has exactly that position, those angles and that residual.
pub proof fn lemma_body6d_euler_round_trip(
    order: ByteOrder,
    s: Seq<u8>,
    with_residual: bool,
    m: Bodies6dEuler,
    k: int,
    position: Point,
    angles: Seq<u32>,
    residual: u32,
)
    requires
        bodies6d_euler_of(order, s, with_residual, m),
        0 <= k < m.bodies@.len(),
        angles.len() == 3,
        ({
            let record = body_record(position, angles, with_residual, residual);
            let at = 8 + k * (4 * record.len());
            &&& at + 4 * record.len() <= s.len()
            &&& s.subrange(at, at + 4 * record.len()) == words_bytes(order, record)
        }),
    ensures
        m.bodies@[k].position == position,
        m.bodies@[k].angles@ == angles,
        m.bodies@[k].residual == if with_residual {
            Some(residual)
        } else {
            None
        },
{
    let record = body_record(position, angles, with_residual, residual);
    let at = 8 + k * (4 * record.len());
    lemma_words_bytes_read(order, record, s, at);
    assert(s.len() > 0);
    assert(at == 8 + k * body6d_euler_stride(with_residual));
    let b = m.bodies@[k];
    assert(body6d_euler_at(order, s, at, with_residual, b));
    assert(u32_at(order, s, at + 4 * 0) == record[0]);
    assert(u32_at(order, s, at + 4 * 1) == record[1]);
    assert(u32_at(order, s, at + 4 * 2) == record[2]);
    assert forall|j: int| 0 <= j < 3 implies b.angles@[j] == angles[j] by {
        assert(record[3 + j] == angles[j]);
        assert(u32_at(order, s, at + 4 * (3 + j)) == record[3 + j]);
        assert(words_at(order, s, at + 12, 3)[j] == u32_at(order, s, at + 12 + 4 * j));
    }
    assert(b.angles@ =~= angles);
    if with_residual {
        assert(record[6] == residual);
        assert(u32_at(order, s, at + 4 * 6) == record[6]);
    }
}

/// The 8 byte header of a body component written as its body count, drop
/// rate and out-of-sync rate, in that order.
pub open spec fn bodies_header_written(order: ByteOrder, s: Seq<u8>, count: u32, drop_rate: u16, out_of_sync_rate: u16) -> bool {
    &&& 8 <= s.len()
    &&& s.subrange(0, 4) == spec_u32_bytes(order, count)
    &&& s.subrange(4, 6) == spec_u16_bytes(order, drop_rate)
    &&& s.subrange(6, 8) == spec_u16_bytes(order, out_of_sync_rate)
}

/// Round trip against the header of the body components: a payload whose
/// header is written as a body count, a drop rate and an out-of-sync rate
/// decodes, as a matrix or an Euler component, to exactly that many bodies
/// with that drop rate and that out-of-sync rate.
pub proof fn lemma_bodies_header_round_trip(
    order: ByteOrder,
    s: Seq<u8>,
    with_residual: bool,
    count: u32,
    drop_rate: u16,
    out_of_sync_rate: u16,
    m: Bodies6d,
    e: Bodies6dEuler,
)
    requires
        bodies_header_written(order, s, count, drop_rate, out_of_sync_rate),
    ensures
        bodies6d_of(order, s, with_residual, m) ==> m.bodies@.len() == count && m.drop_rate
            == drop_rate && m.out_of_sync_rate == out_of_sync_rate,
        bodies6d_euler_of(order, s, with_residual, e) ==> e.bodies@.len() == count && e.drop_rate
            == drop_rate && e.out_of_sync_rate == out_of_sync_rate,
{
    lemma_words_bytes_read(order, seq![count], s, 0);
    assert(words_bytes(order, seq![count]) =~= spec_u32_bytes(order, count)) by {
        lemma_u32_bytes_roundtrip(order, count);
    }
    assert(u32_at(order, s, 0int + 4 * 0int) == count);
    lemma_u16_bytes_read(order, drop_rate, s, 4);
    lemma_u16_bytes_read(order, out_of_sync_rate, s, 6);
}

} // verus!
