//! Bounds-checked sequential reader for the QTM binary wire format.
//!
//! The mathematical model of the wire format lives here too: `u16_at`,
//! `u32_at` and `u64_at` say what integer a run of bytes encodes in a given
//! byte order, and every decoder of the crate is specified in terms of them.

use vstd::prelude::*;
use vstd::slice::{slice_subrange, slice_to_vec};

use crate::components::Point;
use crate::error::{Error, Result};

verus! {

/// Byte order of a connection.
///
/// QTM exposes a little-endian port and a big-endian port; which one you
/// connected to determines how every multi-byte field is decoded.
#[derive(Debug, Clone, Copy, PartialEq, Eq, Structural, Default)]
pub enum ByteOrder {
    #[default]
    Little,
    Big,
}

/// The 16 bit integer that `b0 b1` encodes in the given byte order.
pub open spec fn spec_u16(order: ByteOrder, b0: u8, b1: u8) -> u16 {
    match order {
        ByteOrder::Little => (b0 as int + b1 as int * 0x100) as u16,
        ByteOrder::Big => (b1 as int + b0 as int * 0x100) as u16,
    }
}

/// The 32 bit integer that `b0 b1 b2 b3` encodes in the given byte order.
pub open spec fn spec_u32(order: ByteOrder, b0: u8, b1: u8, b2: u8, b3: u8) -> u32 {
    match order {
        ByteOrder::Little => (b0 as int + b1 as int * 0x100 + b2 as int * 0x1_0000 + b3 as int
            * 0x100_0000) as u32,
        ByteOrder::Big => (b3 as int + b2 as int * 0x100 + b1 as int * 0x1_0000 + b0 as int
            * 0x100_0000) as u32,
    }
}

/// The 64 bit integer that eight bytes encode: the low word comes first in
/// little-endian order and last in big-endian order.
pub open spec fn spec_u64(order: ByteOrder, lo: u32, hi: u32) -> u64 {
    (lo as int + hi as int * 0x1_0000_0000) as u64
}

/// The 16 bit field starting at byte `i` of `s`.
pub open spec fn u16_at(order: ByteOrder, s: Seq<u8>, i: int) -> u16 {
    spec_u16(order, s[i], s[i + 1])
}

/// The 32 bit field starting at byte `i` of `s`.
pub open spec fn u32_at(order: ByteOrder, s: Seq<u8>, i: int) -> u32 {
    spec_u32(order, s[i], s[i + 1], s[i + 2], s[i + 3])
}

/// The 64 bit field starting at byte `i` of `s`.
pub open spec fn u64_at(order: ByteOrder, s: Seq<u8>, i: int) -> u64 {
    match order {
        ByteOrder::Little => spec_u64(order, u32_at(order, s, i), u32_at(order, s, i + 4)),
        ByteOrder::Big => spec_u64(order, u32_at(order, s, i + 4), u32_at(order, s, i)),
    }
}

/// Three consecutive 32 bit fields read as an X/Y/Z triple of float bit
/// patterns.
pub open spec fn point_at(order: ByteOrder, s: Seq<u8>, i: int) -> Point {
    Point { x: u32_at(order, s, i), y: u32_at(order, s, i + 4), z: u32_at(order, s, i + 8) }
}

/// `n` consecutive 32 bit float fields starting at byte `i` of `s`.
pub open spec fn words_at(order: ByteOrder, s: Seq<u8>, i: int, n: nat) -> Seq<u32> {
    Seq::new(n, |m: int| u32_at(order, s, i + 4 * m))
}

/// Float fields of a suffix of `input` are those of `input` at the shifted
/// offset.
pub proof fn lemma_words_shift(
    order: ByteOrder,
    input: Seq<u8>,
    start: int,
    s: Seq<u8>,
    o: int,
    n: nat,
)
    requires
        0 <= start <= input.len(),
        s == input.subrange(start, input.len() as int),
        0 <= o,
        o + 4 * n <= s.len(),
    ensures
        words_at(order, s, o, n) == words_at(order, input, start + o, n),
{
    assert forall|m: int| 0 <= m < n implies #[trigger] words_at(order, s, o, n)[m] == words_at(
        order,
        input,
        start + o,
        n,
    )[m] by {
        lemma_fields_shift(order, input, start, s, o + 4 * m);
    }
    assert(words_at(order, s, o, n) =~= words_at(order, input, start + o, n));
}

/// Fields of a suffix of `input` are the fields of `input` at the shifted
/// offset.
pub proof fn lemma_fields_shift(order: ByteOrder, input: Seq<u8>, start: int, s: Seq<u8>, o: int)
    requires
        0 <= start <= input.len(),
        s == input.subrange(start, input.len() as int),
        0 <= o,
    ensures
        o + 1 <= s.len() ==> s[o] == input[start + o],
        o + 2 <= s.len() ==> u16_at(order, s, o) == u16_at(order, input, start + o),
        o + 4 <= s.len() ==> u32_at(order, s, o) == u32_at(order, input, start + o),
        o + 8 <= s.len() ==> u64_at(order, s, o) == u64_at(order, input, start + o),
        o + 12 <= s.len() ==> point_at(order, s, o) == point_at(order, input, start + o),
{
    if o + 8 <= s.len() {
        assert(u32_at(order, s, o + 4) == u32_at(order, input, start + o + 4));
    }
    if o + 12 <= s.len() {
        assert(u32_at(order, s, o + 4) == u32_at(order, input, start + o + 4));
        assert(u32_at(order, s, o + 8) == u32_at(order, input, start + o + 8));
    }
}

/// The four bytes that encode `value` in the given byte order.
pub open spec fn spec_u32_bytes(order: ByteOrder, value: u32) -> Seq<u8> {
    let b0 = (value % 0x100) as u8;
    let b1 = ((value / 0x100) % 0x100) as u8;
    let b2 = ((value / 0x1_0000) % 0x100) as u8;
    let b3 = (value / 0x100_0000) as u8;
    match order {
        ByteOrder::Little => seq![b0, b1, b2, b3],
        ByteOrder::Big => seq![b3, b2, b1, b0],
    }
}

impl ByteOrder {
    pub fn u16(self, b: [u8; 2]) -> (r: u16)
        ensures
            r == spec_u16(self, b@[0], b@[1]),
    {
        match self {
            ByteOrder::Little => b[0] as u16 + (b[1] as u16) * 0x100,
            ByteOrder::Big => b[1] as u16 + (b[0] as u16) * 0x100,
        }
    }

    pub fn u32(self, b: [u8; 4]) -> (r: u32)
        ensures
            r == spec_u32(self, b@[0], b@[1], b@[2], b@[3]),
    {
        match self {
            ByteOrder::Little => b[0] as u32 + (b[1] as u32) * 0x100 + (b[2] as u32) * 0x1_0000
                + (b[3] as u32) * 0x100_0000,
            ByteOrder::Big => b[3] as u32 + (b[2] as u32) * 0x100 + (b[1] as u32) * 0x1_0000 + (
            b[0] as u32) * 0x100_0000,
        }
    }

    pub fn u64(self, b: [u8; 8]) -> (r: u64)
        ensures
            r == (match self {
                ByteOrder::Little => spec_u64(
                    self,
                    spec_u32(self, b@[0], b@[1], b@[2], b@[3]),
                    spec_u32(self, b@[4], b@[5], b@[6], b@[7]),
                ),
                ByteOrder::Big => spec_u64(
                    self,
                    spec_u32(self, b@[4], b@[5], b@[6], b@[7]),
                    spec_u32(self, b@[0], b@[1], b@[2], b@[3]),
                ),
            }),
    {
        let first = self.u32([b[0], b[1], b[2], b[3]]);
        let second = self.u32([b[4], b[5], b[6], b[7]]);
        let (lo, hi) = match self {
            ByteOrder::Little => (first, second),
            ByteOrder::Big => (second, first),
        };
        lo as u64 + (hi as u64) * 0x1_0000_0000
    }

    /// Encodes `value` in this byte order.
    pub fn put_u32(self, value: u32) -> (r: [u8; 4])
        ensures
            r@ == spec_u32_bytes(self, value),
    {
        let b0 = (value % 0x100) as u8;
        let b1 = ((value / 0x100) % 0x100) as u8;
        let b2 = ((value / 0x1_0000) % 0x100) as u8;
        let b3 = (value / 0x100_0000) as u8;
        let r = match self {
            ByteOrder::Little => [b0, b1, b2, b3],
            ByteOrder::Big => [b3, b2, b1, b0],
        };
        assert(r@ =~= spec_u32_bytes(self, value));
        r
    }
}

/// Decoding the bytes that encode a value gives the value back.
pub proof fn lemma_u32_bytes_roundtrip(order: ByteOrder, value: u32)
    ensures
        spec_u32_bytes(order, value).len() == 4,
        u32_at(order, spec_u32_bytes(order, value), 0) == value,
{
    let b = spec_u32_bytes(order, value);
    let v = value as int;
    assert(v == v % 0x100 + ((v / 0x100) % 0x100) * 0x100 + ((v / 0x1_0000) % 0x100) * 0x1_0000
        + (v / 0x100_0000) * 0x100_0000) by (nonlinear_arith)
        requires
            0 <= v < 0x1_0000_0000,
    ;
}

/// The two bytes that encode `value` in the given byte order.
pub open spec fn spec_u16_bytes(order: ByteOrder, value: u16) -> Seq<u8> {
    let b0 = (value % 0x100) as u8;
    let b1 = (value / 0x100) as u8;
    match order {
        ByteOrder::Little => seq![b0, b1],
        ByteOrder::Big => seq![b1, b0],
    }
}

/// Reading the 16 bit field of bytes that encode a value at offset `o`
/// gives the value back.
pub proof fn lemma_u16_bytes_read(order: ByteOrder, value: u16, s: Seq<u8>, o: int)
    requires
        0 <= o,
        o + 2 <= s.len(),
        s.subrange(o, o + 2) == spec_u16_bytes(order, value),
    ensures
        u16_at(order, s, o) == value,
{
    let b = spec_u16_bytes(order, value);
    assert(s[o] == b[0] && s[o + 1] == b[1]) by {
        assert(s.subrange(o, o + 2)[0] == s[o]);
        assert(s.subrange(o, o + 2)[1] == s[o + 1]);
    }
    let v = value as int;
    assert(v == v % 0x100 + (v / 0x100) * 0x100) by (nonlinear_arith)
        requires
            0 <= v < 0x1_0000,
    ;
}

/// The bytes that encode the 32 bit words `ws` one after another, each in
/// the given byte order.
pub open spec fn words_bytes(order: ByteOrder, ws: Seq<u32>) -> Seq<u8> {
    Seq::new(4 * ws.len(), |i: int| spec_u32_bytes(order, ws[i / 4])[i % 4])
}

/// Reading the 32 bit fields of bytes that encode words `ws` at offset `o`
/// gives the words back, in order.
pub proof fn lemma_words_bytes_read(order: ByteOrder, ws: Seq<u32>, s: Seq<u8>, o: int)
    requires
        0 <= o,
        o + 4 * ws.len() <= s.len(),
        s.subrange(o, o + 4 * ws.len()) == words_bytes(order, ws),
    ensures
        forall|j: int| 0 <= j < ws.len() ==> #[trigger] u32_at(order, s, o + 4 * j) == ws[j],
{
    assert forall|j: int| 0 <= j < ws.len() implies #[trigger] u32_at(order, s, o + 4 * j) == ws[j] by {
        let b = spec_u32_bytes(order, ws[j]);
        lemma_u32_bytes_roundtrip(order, ws[j]);
        assert forall|t: int| 0 <= t < 4 implies s[o + 4 * j + t] == b[t] by {
            assert((4 * j + t) / 4 == j && (4 * j + t) % 4 == t) by (nonlinear_arith)
                requires
                    0 <= t < 4,
                    0 <= j,
            ;
            assert(s.subrange(o, o + 4 * ws.len())[4 * j + t] == s[o + 4 * j + t]);
        }
        assert(s[o + 4 * j] == b[0]);
        assert(s[o + 4 * j + 1] == b[1]);
        assert(s[o + 4 * j + 2] == b[2]);
        assert(s[o + 4 * j + 3] == b[3]);
    }
}

/// Encoding the value that four bytes decode to gives the same four bytes.
pub proof fn lemma_u32_value_roundtrip(order: ByteOrder, s: Seq<u8>)
    requires
        s.len() == 4,
    ensures
        spec_u32_bytes(order, u32_at(order, s, 0)) == s,
{
    let v = u32_at(order, s, 0);
    let (b0, b1, b2, b3) = match order {
        ByteOrder::Little => (s[0] as int, s[1] as int, s[2] as int, s[3] as int),
        ByteOrder::Big => (s[3] as int, s[2] as int, s[1] as int, s[0] as int),
    };
    assert(v as int == b0 + b1 * 0x100 + b2 * 0x1_0000 + b3 * 0x100_0000);
    assert({
        let w = b0 + b1 * 0x100 + b2 * 0x1_0000 + b3 * 0x100_0000;
        &&& w % 0x100 == b0
        &&& (w / 0x100) % 0x100 == b1
        &&& (w / 0x1_0000) % 0x100 == b2
        &&& w / 0x100_0000 == b3
    }) by (nonlinear_arith)
        requires
            0 <= b0 < 0x100,
            0 <= b1 < 0x100,
            0 <= b2 < 0x100,
            0 <= b3 < 0x100,
    ;
    assert(spec_u32_bytes(order, v) =~= s);
}

/// A cursor over a byte slice that refuses to read past the end.
///
/// Every read is checked and returns [`Error::ShortPacket`] rather than
/// indexing out of bounds.
pub struct Cursor<'a> {
    data: &'a [u8],
    pos: usize,
    order: ByteOrder,
}

impl<'a> Cursor<'a> {
    /// A cursor never points past the end of its input.
    #[verifier::type_invariant]
    spec fn in_bounds(&self) -> bool {
        self.pos <= self.data@.len()
    }

    /// The bytes the cursor reads from.
    pub closed spec fn input(&self) -> Seq<u8> {
        self.data@
    }

    /// How many bytes have been consumed.
    pub closed spec fn offset(&self) -> nat {
        self.pos as nat
    }

    /// The byte order multi-byte fields are decoded in.
    pub closed spec fn byte_order(&self) -> ByteOrder {
        self.order
    }

    /// The bytes not yet consumed.
    pub open spec fn rest(&self) -> Seq<u8> {
        if self.offset() <= self.input().len() {
            self.input().subrange(self.offset() as int, self.input().len() as int)
        } else {
            Seq::empty()
        }
    }

    /// True when `n` more bytes can be read.
    pub open spec fn fits(&self, n: int) -> bool {
        self.offset() + n <= self.input().len()
    }

    /// The error a read of `n` bytes reports when they are not there.
    pub open spec fn short(&self, n: int) -> Error {
        Error::ShortPacket {
            needed: n as usize,
            offset: self.offset() as usize,
            available: self.rest().len() as usize,
        }
    }

    /// `self` is `old` advanced by `n` bytes.
    pub open spec fn advanced(&self, old: Cursor<'a>, n: int) -> bool {
        &&& self.input() == old.input()
        &&& self.byte_order() == old.byte_order()
        &&& self.offset() == old.offset() + n
    }

    pub fn new(data: &'a [u8], order: ByteOrder) -> (c: Self)
        ensures
            c.input() == data@,
            c.offset() == 0,
            c.byte_order() == order,
    {
        Cursor { data, pos: 0, order }
    }

    /// Bytes not yet consumed.
    pub fn remaining(&self) -> (r: usize)
        ensures
            r == self.rest().len(),
            self.offset() <= self.input().len() <= usize::MAX,
    {
        proof {
            use_type_invariant(self);
        }
        self.data.len() - self.pos
    }

    fn take(&mut self, n: usize) -> (r: Result<&'a [u8]>)
        ensures
            old(self).fits(n as int) ==> {
                &&& r matches Ok(b) && b@ == old(self).input().subrange(
                    old(self).offset() as int,
                    old(self).offset() + n,
                )
                &&& final(self).advanced(*old(self), n as int)
            },
            !old(self).fits(n as int) ==> r == Err::<&'a [u8], Error>(old(self).short(n as int))
                && *final(self) == *old(self),
    {
        let available = self.remaining();
        if n > self.data.len() || self.pos > self.data.len() - n {
            return Err(Error::ShortPacket { needed: n, offset: self.pos, available });
        }
        let end = self.pos + n;
        let slice = slice_subrange(self.data, self.pos, end);
        self.pos = end;
        Ok(slice)
    }

    pub fn u8(&mut self) -> (r: Result<u8>)
        ensures
            old(self).fits(1) ==> r == Ok::<u8, Error>(old(self).input()[old(self).offset() as int])
                && final(self).advanced(*old(self), 1),
            !old(self).fits(1) ==> r == Err::<u8, Error>(old(self).short(1)) && *final(self)
                == *old(self),
    {
        let b = self.take(1)?;
        Ok(b[0])
    }

    pub fn u16(&mut self) -> (r: Result<u16>)
        ensures
            old(self).fits(2) ==> r == Ok::<u16, Error>(
                u16_at(old(self).byte_order(), old(self).input(), old(self).offset() as int),
            ) && final(self).advanced(*old(self), 2),
            !old(self).fits(2) ==> r == Err::<u16, Error>(old(self).short(2)) && *final(self)
                == *old(self),
    {
        let b = self.take(2)?;
        Ok(self.order.u16([b[0], b[1]]))
    }

    pub fn u32(&mut self) -> (r: Result<u32>)
        ensures
            old(self).fits(4) ==> r == Ok::<u32, Error>(
                u32_at(old(self).byte_order(), old(self).input(), old(self).offset() as int),
            ) && final(self).advanced(*old(self), 4),
            !old(self).fits(4) ==> r == Err::<u32, Error>(old(self).short(4)) && *final(self)
                == *old(self),
    {
        let b = self.take(4)?;
        Ok(self.order.u32([b[0], b[1], b[2], b[3]]))
    }

    pub fn u64(&mut self) -> (r: Result<u64>)
        ensures
            old(self).fits(8) ==> r == Ok::<u64, Error>(
                u64_at(old(self).byte_order(), old(self).input(), old(self).offset() as int),
            ) && final(self).advanced(*old(self), 8),
            !old(self).fits(8) ==> r == Err::<u64, Error>(old(self).short(8)) && *final(self)
                == *old(self),
    {
        let b = self.take(8)?;
        Ok(self.order.u64([b[0], b[1], b[2], b[3], b[4], b[5], b[6], b[7]]))
    }

    /// Reads a 32 bit IEEE-754 field and returns its bit pattern.
    pub fn float_bits(&mut self) -> (r: Result<u32>)
        ensures
            old(self).fits(4) ==> r == Ok::<u32, Error>(
                u32_at(old(self).byte_order(), old(self).input(), old(self).offset() as int),
            ) && final(self).advanced(*old(self), 4),
            !old(self).fits(4) ==> r == Err::<u32, Error>(old(self).short(4)) && *final(self)
                == *old(self),
    {
        self.u32()
    }

    /// Reads three consecutive floats as an X/Y/Z triple.
    pub fn point(&mut self) -> (r: Result<Point>)
        ensures
            old(self).fits(12) ==> r == Ok::<Point, Error>(
                point_at(old(self).byte_order(), old(self).input(), old(self).offset() as int),
            ) && final(self).advanced(*old(self), 12),
            !old(self).fits(12) ==> r == Err::<Point, Error>(
                short_word(old(self).offset() as int, old(self).rest(), 0),
            ) && final(self).advanced(*old(self), 4 * (old(self).rest().len() / 4) as int),
    {
        proof {
            use_type_invariant(&*self);
        }
        let x = self.float_bits()?;
        let y = self.float_bits()?;
        let z = self.float_bits()?;
        Ok(Point { x, y, z })
    }

    /// Reads nine consecutive 32 bit words, such as the floats of a 3x3
    /// rotation matrix.
    pub fn words9(&mut self) -> (r: Result<[u32; 9]>)
        ensures
            old(self).fits(36) ==> {
                &&& r matches Ok(a) && a@ == words_at(
                    old(self).byte_order(),
                    old(self).input(),
                    old(self).offset() as int,
                    9,
                )
                &&& final(self).advanced(*old(self), 36)
            },
            !old(self).fits(36) ==> r == Err::<[u32; 9], Error>(
                short_word(old(self).offset() as int, old(self).rest(), 0),
            ) && final(self).advanced(*old(self), 4 * (old(self).rest().len() / 4) as int),
    {
        proof {
            use_type_invariant(&*self);
        }
        let a0 = self.float_bits()?;
        let a1 = self.float_bits()?;
        let a2 = self.float_bits()?;
        let a3 = self.float_bits()?;
        let a4 = self.float_bits()?;
        let a5 = self.float_bits()?;
        let a6 = self.float_bits()?;
        let a7 = self.float_bits()?;
        let a8 = self.float_bits()?;
        let a = [a0, a1, a2, a3, a4, a5, a6, a7, a8];
        assert(a@ =~= words_at(old(self).byte_order(), old(self).input(), old(self).offset() as int, 9));
        Ok(a)
    }

    /// Reads four consecutive 32 bit words, such as the floats of a rotation
    /// quaternion.
    pub fn words4(&mut self) -> (r: Result<[u32; 4]>)
        ensures
            old(self).fits(16) ==> {
                &&& r matches Ok(a) && a@ == words_at(
                    old(self).byte_order(),
                    old(self).input(),
                    old(self).offset() as int,
                    4,
                )
                &&& final(self).advanced(*old(self), 16)
            },
            !old(self).fits(16) ==> r == Err::<[u32; 4], Error>(
                short_word(old(self).offset() as int, old(self).rest(), 0),
            ) && final(self).advanced(*old(self), 4 * (old(self).rest().len() / 4) as int),
    {
        proof {
            use_type_invariant(&*self);
        }
        let a0 = self.float_bits()?;
        let a1 = self.float_bits()?;
        let a2 = self.float_bits()?;
        let a3 = self.float_bits()?;
        let a = [a0, a1, a2, a3];
        assert(a@ =~= words_at(old(self).byte_order(), old(self).input(), old(self).offset() as int, 4));
        Ok(a)
    }

    /// Copies the next `n` bytes.
    ///
    /// A copy is deliberate: the protocol reuses one receive buffer for every
    /// frame, so borrowing would hand callers memory that the next frame
    /// overwrites underneath them.
    pub fn bytes(&mut self, n: usize) -> (r: Result<Vec<u8>>)
        ensures
            old(self).fits(n as int) ==> {
                &&& r matches Ok(v) && v@ == old(self).input().subrange(
                    old(self).offset() as int,
                    old(self).offset() + n,
                )
                &&& final(self).advanced(*old(self), n as int)
            },
            !old(self).fits(n as int) ==> r == Err::<Vec<u8>, Error>(old(self).short(n as int))
                && *final(self) == *old(self),
    {
        let b = self.take(n)?;
        Ok(slice_to_vec(b))
    }

    /// Rejects a record count that could not possibly fit in what is left.
    ///
    /// A count field is read straight off the wire, so a corrupt or hostile
    /// frame could otherwise drive a multi-gigabyte allocation before a single
    /// byte is validated.
    pub fn check_count(&self, count: u32, bytes_each: usize) -> (r: Result<()>)
        ensures
            r is Ok <==> count * bytes_each <= self.rest().len(),
            r matches Err(e) ==> e == (Error::ShortPacket {
                needed: min_usize(count * bytes_each),
                offset: self.offset() as usize,
                available: self.rest().len() as usize,
            }),
    {
        let available = self.remaining();
        let needed: u64 = match (count as u64).checked_mul(bytes_each as u64) {
            Some(v) => v,
            None => {
                // The product exceeds every length a slice can have.
                return Err(Error::ShortPacket { needed: usize::MAX, offset: self.pos, available });
            },
        };
        if needed > available as u64 {
            let clipped = if needed > usize::MAX as u64 {
                usize::MAX
            } else {
                needed as usize
            };
            return Err(Error::ShortPacket { needed: clipped, offset: self.pos, available });
        }
        Ok(())
    }

    /// Reserves capacity for `count` records, having already validated the
    /// count against the remaining length.
    pub fn vec_with_capacity<T>(&self, count: u32) -> (v: Vec<T>)
        ensures
            v@.len() == 0,
    {
        Vec::with_capacity(count as usize)
    }
}

/// `n` clipped to the largest `usize`.
pub open spec fn min_usize(n: int) -> usize {
    if n > usize::MAX {
        usize::MAX
    } else {
        n as usize
    }
}

/// The error a read of `n` bytes reports at byte `pos` of `s`, the bytes a
/// cursor had left when it was at offset `start`.
pub open spec fn short_read(start: int, s: Seq<u8>, pos: int, n: int) -> Error {
    Error::ShortPacket {
        needed: n as usize,
        offset: (start + pos) as usize,
        available: (s.len() - pos) as usize,
    }
}

/// The error a check of `count` records of `each` bytes reports at byte
/// `pos` of `s`, the bytes a cursor had left when it was at offset `start`.
pub open spec fn short_count(start: int, s: Seq<u8>, pos: int, count: int, each: int) -> Error {
    Error::ShortPacket {
        needed: min_usize(count * each),
        offset: (start + pos) as usize,
        available: (s.len() - pos) as usize,
    }
}

/// What a payload of a count and records of at least `each` bytes reports
/// when its count is cut short or does not fit, for a cursor at offset
/// `start`.
pub open spec fn count_error(order: ByteOrder, s: Seq<u8>, start: int, each: int) -> Error {
    if s.len() < 4 {
        short_read(start, s, 0, 4)
    } else {
        short_count(start, s, 4, u32_at(order, s, 0) as int, each)
    }
}

/// The error a run of 32 bit fields starting at byte `o` of `s` reports
/// when it is cut short: that of the first field that does not fit.
pub open spec fn short_word(start: int, s: Seq<u8>, o: int) -> Error {
    short_read(start, s, o + 4 * ((s.len() - o) / 4), 4)
}

} // verus!
