//! Scalar kinds and their fixed-width wire encoding.
//!
//! Every multi-byte scalar is laid out in the byte order that the schema
//! declares. The byte-order conversions themselves are done by the
//! `byteorder` crate; this module states what those conversions compute and
//! proves that reading and writing are inverse to each other.

use byteorder::ByteOrder;
use vstd::prelude::*;
use vstd::slice::slice_subrange;

verus! {

/// Byte order applied to every multi-byte scalar of a schema.
#[derive(Clone, Copy, Debug, PartialEq, Eq, Structural)]
pub enum Endianness {
    Little,
    Big,
}

/// The closed set of scalar kinds a field can have.
#[derive(Clone, Copy, Debug, PartialEq, Eq, Structural)]
pub enum PrimitiveType {
    U8,
    U16,
    U32,
    U64,
    I8,
    I16,
    I32,
    I64,
    F32,
    F64,
    Bool,
}

/// A decoded scalar. Floating-point values are carried as their IEEE 754
/// bit patterns, so that they survive a decode and encode unchanged.
#[derive(Clone, Copy, Debug, PartialEq, Eq, Structural)]
pub enum Scalar {
    U8(u8),
    U16(u16),
    U32(u32),
    U64(u64),
    I8(i8),
    I16(i16),
    I32(i32),
    I64(i64),
    F32(u32),
    F64(u64),
    Bool(bool),
}

impl PrimitiveType {
    /// Number of bytes a scalar of this kind occupies on the wire.
    pub open spec fn width(self) -> nat {
        match self {
            PrimitiveType::U8 | PrimitiveType::I8 | PrimitiveType::Bool => 1,
            PrimitiveType::U16 | PrimitiveType::I16 => 2,
            PrimitiveType::U32 | PrimitiveType::I32 | PrimitiveType::F32 => 4,
            PrimitiveType::U64 | PrimitiveType::I64 | PrimitiveType::F64 => 8,
        }
    }

    /// Number of bytes a scalar of this kind occupies on the wire.
    pub fn byte_width(self) -> (w: usize)
        ensures
            w == self.width(),
    {
        match self {
            PrimitiveType::U8 | PrimitiveType::I8 | PrimitiveType::Bool => 1,
            PrimitiveType::U16 | PrimitiveType::I16 => 2,
            PrimitiveType::U32 | PrimitiveType::I32 | PrimitiveType::F32 => 4,
            PrimitiveType::U64 | PrimitiveType::I64 | PrimitiveType::F64 => 8,
        }
    }
}

impl Scalar {
    /// The kind this scalar belongs to.
    pub open spec fn kind(self) -> PrimitiveType {
        match self {
            Scalar::U8(_) => PrimitiveType::U8,
            Scalar::U16(_) => PrimitiveType::U16,
            Scalar::U32(_) => PrimitiveType::U32,
            Scalar::U64(_) => PrimitiveType::U64,
            Scalar::I8(_) => PrimitiveType::I8,
            Scalar::I16(_) => PrimitiveType::I16,
            Scalar::I32(_) => PrimitiveType::I32,
            Scalar::I64(_) => PrimitiveType::I64,
            Scalar::F32(_) => PrimitiveType::F32,
            Scalar::F64(_) => PrimitiveType::F64,
            Scalar::Bool(_) => PrimitiveType::Bool,
        }
    }

    /// The kind this scalar belongs to.
    pub fn primitive_type(&self) -> (k: PrimitiveType)
        ensures
            k == self.kind(),
    {
        match self {
            Scalar::U8(_) => PrimitiveType::U8,
            Scalar::U16(_) => PrimitiveType::U16,
            Scalar::U32(_) => PrimitiveType::U32,
            Scalar::U64(_) => PrimitiveType::U64,
            Scalar::I8(_) => PrimitiveType::I8,
            Scalar::I16(_) => PrimitiveType::I16,
            Scalar::I32(_) => PrimitiveType::I32,
            Scalar::I64(_) => PrimitiveType::I64,
            Scalar::F32(_) => PrimitiveType::F32,
            Scalar::F64(_) => PrimitiveType::F64,
            Scalar::Bool(_) => PrimitiveType::Bool,
        }
    }
}

/// `256` to the power `w`: the number of values that fit in `w` bytes.
pub open spec fn pow256(w: nat) -> nat
    decreases w,
{
    if w == 0 {
        1
    } else {
        256 * pow256((w - 1) as nat)
    }
}

/// The number that `s` spells with its least significant byte first.
pub open spec fn le_value(s: Seq<u8>) -> nat
    decreases s.len(),
{
    if s.len() == 0 {
        0
    } else {
        s[0] as nat + 256 * le_value(s.drop_first())
    }
}

/// The number that `s` spells with its most significant byte first.
pub open spec fn be_value(s: Seq<u8>) -> nat
    decreases s.len(),
{
    if s.len() == 0 {
        0
    } else {
        256 * be_value(s.drop_last()) + s.last() as nat
    }
}

/// The `w` low-order bytes of `n`, least significant first.
pub open spec fn le_bytes(n: nat, w: nat) -> Seq<u8>
    decreases w,
{
    if w == 0 {
        Seq::empty()
    } else {
        seq![(n % 256) as u8] + le_bytes(n / 256, (w - 1) as nat)
    }
}

/// The `w` low-order bytes of `n`, most significant first.
pub open spec fn be_bytes(n: nat, w: nat) -> Seq<u8>
    decreases w,
{
    if w == 0 {
        Seq::empty()
    } else {
        be_bytes(n / 256, (w - 1) as nat).push((n % 256) as u8)
    }
}

/// The unsigned number that `s` spells in the given byte order.
pub open spec fn unsigned_value(endianness: Endianness, s: Seq<u8>) -> nat {
    match endianness {
        Endianness::Little => le_value(s),
        Endianness::Big => be_value(s),
    }
}

/// The `w` low-order bytes of `n` in the given byte order.
pub open spec fn unsigned_bytes(endianness: Endianness, n: nat, w: nat) -> Seq<u8> {
    match endianness {
        Endianness::Little => le_bytes(n, w),
        Endianness::Big => be_bytes(n, w),
    }
}

/// Two's-complement reading of the `w`-byte unsigned number `n`.
pub open spec fn to_signed(n: nat, w: nat) -> int {
    if 2 * n >= pow256(w) {
        n - pow256(w)
    } else {
        n as int
    }
}

/// The `w`-byte unsigned number whose two's-complement reading is `v`.
pub open spec fn from_signed(v: int, w: nat) -> nat {
    if v < 0 {
        (v + pow256(w)) as nat
    } else {
        v as nat
    }
}

/// The scalar of kind `kind` that the bytes `s` encode.
pub open spec fn scalar_from_bytes(kind: PrimitiveType, endianness: Endianness, s: Seq<u8>) -> Scalar {
    let n = unsigned_value(endianness, s);
    match kind {
        PrimitiveType::U8 => Scalar::U8(n as u8),
        PrimitiveType::U16 => Scalar::U16(n as u16),
        PrimitiveType::U32 => Scalar::U32(n as u32),
        PrimitiveType::U64 => Scalar::U64(n as u64),
        PrimitiveType::I8 => Scalar::I8(to_signed(n, 1) as i8),
        PrimitiveType::I16 => Scalar::I16(to_signed(n, 2) as i16),
        PrimitiveType::I32 => Scalar::I32(to_signed(n, 4) as i32),
        PrimitiveType::I64 => Scalar::I64(to_signed(n, 8) as i64),
        PrimitiveType::F32 => Scalar::F32(n as u32),
        PrimitiveType::F64 => Scalar::F64(n as u64),
        PrimitiveType::Bool => Scalar::Bool(n != 0),
    }
}

/// The unsigned number written for a scalar: the value itself, its two's
/// complement, its bit pattern, or `1` and `0` for `true` and `false`.
pub open spec fn scalar_raw(value: Scalar) -> nat {
    match value {
        Scalar::U8(v) => v as nat,
        Scalar::U16(v) => v as nat,
        Scalar::U32(v) => v as nat,
        Scalar::U64(v) => v as nat,
        Scalar::I8(v) => from_signed(v as int, 1),
        Scalar::I16(v) => from_signed(v as int, 2),
        Scalar::I32(v) => from_signed(v as int, 4),
        Scalar::I64(v) => from_signed(v as int, 8),
        Scalar::F32(v) => v as nat,
        Scalar::F64(v) => v as nat,
        Scalar::Bool(v) => if v { 1 } else { 0 },
    }
}

/// The bytes that encode `value`.
pub open spec fn scalar_to_bytes(value: Scalar, endianness: Endianness) -> Seq<u8> {
    unsigned_bytes(endianness, scalar_raw(value), value.kind().width())
}

/// Reading one scalar at offset `pos` of `input`: the scalar and the offset
/// after it, or `None` when fewer than `kind.width()` bytes are left.
pub open spec fn scalar_at(kind: PrimitiveType, endianness: Endianness, input: Seq<u8>, pos: int) -> Option<(Scalar, int)> {
    if 0 <= pos && pos + kind.width() <= input.len() {
        Some((scalar_from_bytes(kind, endianness, input.subrange(pos, pos + kind.width())), pos + kind.width()))
    } else {
        None
    }
}

pub proof fn lemma_pow256_values()
    ensures
        pow256(0) == 1,
        pow256(1) == 0x100,
        pow256(2) == 0x1_0000,
        pow256(4) == 0x1_0000_0000,
        pow256(8) == 0x1_0000_0000_0000_0000,
{
    reveal_with_fuel(pow256, 9);
}

pub proof fn lemma_le_bytes_len(n: nat, w: nat)
    ensures
        le_bytes(n, w).len() == w,
    decreases w,
{
    if w > 0 {
        lemma_le_bytes_len(n / 256, (w - 1) as nat);
    }
}

pub proof fn lemma_be_bytes_len(n: nat, w: nat)
    ensures
        be_bytes(n, w).len() == w,
    decreases w,
{
    if w > 0 {
        lemma_be_bytes_len(n / 256, (w - 1) as nat);
    }
}

pub proof fn lemma_le_value_bound(s: Seq<u8>)
    ensures
        le_value(s) < pow256(s.len()),
    decreases s.len(),
{
    if s.len() > 0 {
        lemma_le_value_bound(s.drop_first());
    }
}

pub proof fn lemma_be_value_bound(s: Seq<u8>)
    ensures
        be_value(s) < pow256(s.len()),
    decreases s.len(),
{
    if s.len() > 0 {
        lemma_be_value_bound(s.drop_last());
    }
}

/// Writing a number that fits in `w` bytes and reading it back gives the
/// number.
pub proof fn lemma_le_value_of_bytes(n: nat, w: nat)
    requires
        n < pow256(w),
    ensures
        le_value(le_bytes(n, w)) == n,
    decreases w,
{
    if w > 0 {
        let rest = le_bytes(n / 256, (w - 1) as nat);
        lemma_le_value_of_bytes(n / 256, (w - 1) as nat);
        lemma_le_bytes_len(n / 256, (w - 1) as nat);
        assert(le_bytes(n, w).drop_first() =~= rest);
        assert(le_bytes(n, w)[0] == (n % 256) as u8);
    }
}

/// Reading bytes and writing the number back gives the bytes.
pub proof fn lemma_le_bytes_of_value(s: Seq<u8>)
    ensures
        le_bytes(le_value(s), s.len()) == s,
    decreases s.len(),
{
    if s.len() > 0 {
        lemma_le_bytes_of_value(s.drop_first());
        let n = le_value(s);
        assert(n % 256 == s[0] as nat && n / 256 == le_value(s.drop_first()));
        assert(le_bytes(n, s.len()) =~= s);
    }
}

pub proof fn lemma_be_value_of_bytes(n: nat, w: nat)
    requires
        n < pow256(w),
    ensures
        be_value(be_bytes(n, w)) == n,
    decreases w,
{
    if w > 0 {
        let rest = be_bytes(n / 256, (w - 1) as nat);
        lemma_be_value_of_bytes(n / 256, (w - 1) as nat);
        lemma_be_bytes_len(n / 256, (w - 1) as nat);
        assert(be_bytes(n, w).drop_last() =~= rest);
        assert(be_bytes(n, w).last() == (n % 256) as u8);
    }
}

pub proof fn lemma_be_bytes_of_value(s: Seq<u8>)
    ensures
        be_bytes(be_value(s), s.len()) == s,
    decreases s.len(),
{
    if s.len() > 0 {
        lemma_be_bytes_of_value(s.drop_last());
        let n = be_value(s);
        assert(n % 256 == s.last() as nat && n / 256 == be_value(s.drop_last()));
        assert(be_bytes(n, s.len()) =~= s);
    }
}

/// `byteorder::LittleEndian::read_uint`: the unsigned number spelled by the
/// first `nbytes` bytes of `buf`, least significant byte first. The crate
/// panics unless `1 <= nbytes <= 8` and `buf` holds that many bytes.
#[verifier::external_body]
fn le_read_uint(buf: &[u8], nbytes: usize) -> (n: u64)
    requires
        1 <= nbytes <= 8,
        nbytes <= buf@.len(),
    ensures
        n == le_value(buf@.take(nbytes as int)),
{
    byteorder::LittleEndian::read_uint(buf, nbytes)
}

/// `byteorder::BigEndian::read_uint`: the unsigned number spelled by the
/// first `nbytes` bytes of `buf`, most significant byte first. The crate
/// panics unless `1 <= nbytes <= 8` and `buf` holds that many bytes.
#[verifier::external_body]
fn be_read_uint(buf: &[u8], nbytes: usize) -> (n: u64)
    requires
        1 <= nbytes <= 8,
        nbytes <= buf@.len(),
    ensures
        n == be_value(buf@.take(nbytes as int)),
{
    byteorder::BigEndian::read_uint(buf, nbytes)
}

/// `byteorder::LittleEndian::write_uint` into a fresh buffer of `nbytes`
/// bytes: the `nbytes` low-order bytes of `n`, least significant first. The
/// crate panics unless `nbytes <= 8` and `n` fits in `nbytes` bytes.
#[verifier::external_body]
fn le_write_uint(n: u64, nbytes: usize) -> (out: Vec<u8>)
    requires
        1 <= nbytes <= 8,
        n < pow256(nbytes as nat),
    ensures
        out@ == le_bytes(n as nat, nbytes as nat),
{
    let mut out = vec![0u8; nbytes];
    byteorder::LittleEndian::write_uint(&mut out, n, nbytes);
    out
}

/// `byteorder::BigEndian::write_uint` into a fresh buffer of `nbytes`
/// bytes: the `nbytes` low-order bytes of `n`, most significant first. The
/// crate panics unless `nbytes <= 8` and `n` fits in `nbytes` bytes.
#[verifier::external_body]
fn be_write_uint(n: u64, nbytes: usize) -> (out: Vec<u8>)
    requires
        1 <= nbytes <= 8,
        n < pow256(nbytes as nat),
    ensures
        out@ == be_bytes(n as nat, nbytes as nat),
{
    let mut out = vec![0u8; nbytes];
    byteorder::BigEndian::write_uint(&mut out, n, nbytes);
    out
}

/// The two's-complement reading of a raw `width`-byte number.
fn signed_of_raw(raw: u64, width: usize) -> (v: i64)
    requires
        width == 1 || width == 2 || width == 4 || width == 8,
        raw < pow256(width as nat),
    ensures
        v == to_signed(raw as nat, width as nat),
{
    proof {
        lemma_pow256_values();
    }
    if width == 1 {
        if raw >= 0x80 {
            raw as i64 - 0x100
        } else {
            raw as i64
        }
    } else if width == 2 {
        if raw >= 0x8000 {
            raw as i64 - 0x1_0000
        } else {
            raw as i64
        }
    } else if width == 4 {
        if raw >= 0x8000_0000 {
            raw as i64 - 0x1_0000_0000
        } else {
            raw as i64
        }
    } else {
        if raw >= 0x8000_0000_0000_0000 {
            (raw - 0x8000_0000_0000_0000) as i64 + i64::MIN
        } else {
            raw as i64
        }
    }
}

/// The raw `width`-byte number whose two's-complement reading is `v`.
fn raw_of_signed(v: i64, width: usize) -> (raw: u64)
    requires
        width == 1 || width == 2 || width == 4 || width == 8,
        -(pow256(width as nat) as int) <= 2 * v < pow256(width as nat),
    ensures
        raw == from_signed(v as int, width as nat),
        raw < pow256(width as nat),
{
    proof {
        lemma_pow256_values();
    }
    if v >= 0 {
        v as u64
    } else if width == 1 {
        (v + 0x100) as u64
    } else if width == 2 {
        (v + 0x1_0000) as u64
    } else if width == 4 {
        (v + 0x1_0000_0000) as u64
    } else {
        (v - i64::MIN) as u64 + 0x8000_0000_0000_0000
    }
}

/// Reads the scalar of kind `kind` that starts at offset `pos` of `input`.
///
/// Returns the scalar together with the offset just after it, or `None`
/// when the input ends before the scalar does. A boolean is `true` for
/// every nonzero byte.
pub fn read_scalar(kind: PrimitiveType, endianness: Endianness, input: &[u8], pos: usize) -> (r: Option<(Scalar, usize)>)
    ensures
        match r {
            Some((value, next)) => scalar_at(kind, endianness, input@, pos as int) == Some((value, next as int)),
            None => scalar_at(kind, endianness, input@, pos as int).is_none(),
        },
{
    let width = kind.byte_width();
    if pos > input.len() || input.len() - pos < width {
        return None;
    }
    let window = slice_subrange(input, pos, pos + width);
    proof {
        lemma_pow256_values();
        lemma_le_value_bound(window@);
        lemma_be_value_bound(window@);
        assert(window@.take(width as int) =~= window@);
    }
    let raw = match endianness {
        Endianness::Little => le_read_uint(window, width),
        Endianness::Big => be_read_uint(window, width),
    };
    let value = match kind {
        PrimitiveType::U8 => Scalar::U8(raw as u8),
        PrimitiveType::U16 => Scalar::U16(raw as u16),
        PrimitiveType::U32 => Scalar::U32(raw as u32),
        PrimitiveType::U64 => Scalar::U64(raw),
        PrimitiveType::I8 => Scalar::I8(signed_of_raw(raw, 1) as i8),
        PrimitiveType::I16 => Scalar::I16(signed_of_raw(raw, 2) as i16),
        PrimitiveType::I32 => Scalar::I32(signed_of_raw(raw, 4) as i32),
        PrimitiveType::I64 => Scalar::I64(signed_of_raw(raw, 8)),
        PrimitiveType::F32 => Scalar::F32(raw as u32),
        PrimitiveType::F64 => Scalar::F64(raw),
        PrimitiveType::Bool => Scalar::Bool(raw != 0),
    };
    Some((value, pos + width))
}

/// The bytes that encode `value` in the given byte order. A boolean is
/// written as `1` or `0`.
pub fn scalar_bytes(value: Scalar, endianness: Endianness) -> (out: Vec<u8>)
    ensures
        out@ == scalar_to_bytes(value, endianness),
        out@.len() == value.kind().width(),
{
    proof {
        lemma_pow256_values();
        lemma_le_bytes_len(scalar_raw(value), value.kind().width());
        lemma_be_bytes_len(scalar_raw(value), value.kind().width());
    }
    let width = value.primitive_type().byte_width();
    let raw: u64 = match value {
        Scalar::U8(v) => v as u64,
        Scalar::U16(v) => v as u64,
        Scalar::U32(v) => v as u64,
        Scalar::U64(v) => v,
        Scalar::I8(v) => raw_of_signed(v as i64, 1),
        Scalar::I16(v) => raw_of_signed(v as i64, 2),
        Scalar::I32(v) => raw_of_signed(v as i64, 4),
        Scalar::I64(v) => raw_of_signed(v, 8),
        Scalar::F32(v) => v as u64,
        Scalar::F64(v) => v,
        Scalar::Bool(v) => if v { 1 } else { 0 },
    };
    match endianness {
        Endianness::Little => le_write_uint(raw, width),
        Endianness::Big => be_write_uint(raw, width),
    }
}

/// The raw number written for a scalar fits in the scalar's width.
pub proof fn lemma_scalar_raw_fits(value: Scalar)
    ensures
        scalar_raw(value) < pow256(value.kind().width()),
{
    lemma_pow256_values();
}

/// A written scalar occupies exactly the width of its kind.
pub proof fn lemma_scalar_bytes_len(value: Scalar, endianness: Endianness)
    ensures
        scalar_to_bytes(value, endianness).len() == value.kind().width(),
{
    lemma_le_bytes_len(scalar_raw(value), value.kind().width());
    lemma_be_bytes_len(scalar_raw(value), value.kind().width());
}

/// Reading back what was written for a scalar gives the scalar.
pub proof fn lemma_scalar_read_of_written(value: Scalar, endianness: Endianness)
    ensures
        scalar_from_bytes(value.kind(), endianness, scalar_to_bytes(value, endianness)) == value,
{
    lemma_pow256_values();
    lemma_scalar_raw_fits(value);
    let w = value.kind().width();
    let raw = scalar_raw(value);
    lemma_le_value_of_bytes(raw, w);
    lemma_be_value_of_bytes(raw, w);
    assert(unsigned_value(endianness, scalar_to_bytes(value, endianness)) == raw);
}

/// Byte order is stable: for every kind but `Bool`, writing the scalar that
/// was read from `s` reproduces `s` byte for byte, in either byte order.
pub proof fn lemma_scalar_written_of_read(kind: PrimitiveType, endianness: Endianness, s: Seq<u8>)
    requires
        s.len() == kind.width(),
        kind != PrimitiveType::Bool,
    ensures
        scalar_to_bytes(scalar_from_bytes(kind, endianness, s), endianness) == s,
{
    lemma_pow256_values();
    lemma_le_value_bound(s);
    lemma_be_value_bound(s);
    lemma_le_bytes_of_value(s);
    lemma_be_bytes_of_value(s);
    let n = unsigned_value(endianness, s);
    assert(scalar_raw(scalar_from_bytes(kind, endianness, s)) == n);
    assert(scalar_from_bytes(kind, endianness, s).kind() == kind);
}

/// Booleans are canonical: a zero byte reads as `false` and every other
/// byte as `true`; `true` is written as the single byte `1` and `false` as
/// the single byte `0`, in either byte order.
pub proof fn lemma_bool_canonical(endianness: Endianness, byte: u8, flag: bool)
    ensures
        scalar_from_bytes(PrimitiveType::Bool, endianness, seq![byte]) == Scalar::Bool(byte != 0),
        scalar_to_bytes(Scalar::Bool(flag), endianness) == seq![if flag { 1u8 } else { 0u8 }],
{
    reveal_with_fuel(le_value, 2);
    reveal_with_fuel(be_value, 2);
    reveal_with_fuel(le_bytes, 2);
    reveal_with_fuel(be_bytes, 2);
    let s = seq![byte];
    assert(s.drop_first().len() == 0);
    assert(s.drop_last().len() == 0);
    assert(le_value(s) == byte as nat);
    assert(be_value(s) == byte as nat);
    let raw: nat = if flag { 1 } else { 0 };
    assert(le_bytes(raw, 1) =~= seq![if flag { 1u8 } else { 0u8 }]);
    assert(be_bytes(raw, 1) =~= seq![if flag { 1u8 } else { 0u8 }]);
}

} // verus!
