//! Single fields: their kinds, widths, and fixed-width big-endian wire form.

use vstd::prelude::*;

verus! {

/// One fixed-width field value, as it stands in a record.
#[derive(Debug, Clone, Copy, PartialEq, Eq, Structural)]
pub enum Field {
    U8(u8),
    U32(u32),
    U64(u64),
}

/// The declared type of one field; a record's layout is a sequence of these.
#[derive(Debug, Clone, Copy, PartialEq, Eq, Structural)]
pub enum FieldKind {
    U8,
    U32,
    U64,
}

/// The wire width of a field kind: its declared bit width divided by 8.
pub open spec fn kind_width(k: FieldKind) -> nat {
    match k {
        FieldKind::U8 => 1,
        FieldKind::U32 => 4,
        FieldKind::U64 => 8,
    }
}

/// The kind a field value belongs to.
pub open spec fn field_kind(f: Field) -> FieldKind {
    match f {
        Field::U8(_) => FieldKind::U8,
        Field::U32(_) => FieldKind::U32,
        Field::U64(_) => FieldKind::U64,
    }
}

/// The wire width of a field value.
pub open spec fn field_width(f: Field) -> nat {
    kind_width(field_kind(f))
}

/// Big-endian bytes of a 32-bit value: most significant byte first.
pub open spec fn u32_be_bytes(v: u32) -> Seq<u8> {
    seq![(v >> 24) as u8, (v >> 16) as u8, (v >> 8) as u8, v as u8]
}

/// Big-endian bytes of a 64-bit value: most significant byte first.
pub open spec fn u64_be_bytes(v: u64) -> Seq<u8> {
    seq![
        (v >> 56) as u8,
        (v >> 48) as u8,
        (v >> 40) as u8,
        (v >> 32) as u8,
        (v >> 24) as u8,
        (v >> 16) as u8,
        (v >> 8) as u8,
        v as u8,
    ]
}

/// The 32-bit value that four big-endian bytes stand for.
pub open spec fn u32_from_be_bytes(b: Seq<u8>) -> u32
    recommends
        b.len() == 4,
{
    ((b[0] as u32) << 24) | ((b[1] as u32) << 16) | ((b[2] as u32) << 8) | (b[3] as u32)
}

/// The 64-bit value that eight big-endian bytes stand for.
pub open spec fn u64_from_be_bytes(b: Seq<u8>) -> u64
    recommends
        b.len() == 8,
{
    ((b[0] as u64) << 56) | ((b[1] as u64) << 48) | ((b[2] as u64) << 40) | ((b[3] as u64) << 32)
        | ((b[4] as u64) << 24) | ((b[5] as u64) << 16) | ((b[6] as u64) << 8) | (b[7] as u64)
}

/// The wire form of one field under the canonical configuration:
/// fixed width, big endian.
pub open spec fn field_bytes(f: Field) -> Seq<u8> {
    match f {
        Field::U8(v) => seq![v],
        Field::U32(v) => u32_be_bytes(v),
        Field::U64(v) => u64_be_bytes(v),
    }
}

/// The field value that a kind's worth of wire bytes stands for.
pub open spec fn decode_field(k: FieldKind, b: Seq<u8>) -> Field
    recommends
        b.len() == kind_width(k),
{
    match k {
        FieldKind::U8 => Field::U8(b[0]),
        FieldKind::U32 => Field::U32(u32_from_be_bytes(b)),
        FieldKind::U64 => Field::U64(u64_from_be_bytes(b)),
    }
}

/// Fixed-width law for one field: its wire form has exactly its declared
/// width in bytes, whatever its value.
pub proof fn lemma_field_bytes_len(f: Field)
    ensures
        field_bytes(f).len() == field_width(f),
{
}

/// Decoding a kind's bytes yields a field of that kind.
pub proof fn lemma_decode_field_kind(k: FieldKind, b: Seq<u8>)
    ensures
        field_kind(decode_field(k, b)) == k,
{
}

/// Reassembling a 32-bit value from its big-endian bytes gives it back.
pub proof fn lemma_u32_be_round_trip(v: u32)
    ensures
        u32_from_be_bytes(u32_be_bytes(v)) == v,
{
    assert(((((v >> 24) as u8) as u32) << 24) | ((((v >> 16) as u8) as u32) << 16)
        | ((((v >> 8) as u8) as u32) << 8) | ((v as u8) as u32) == v) by (bit_vector);
}

/// Reassembling a 64-bit value from its big-endian bytes gives it back.
pub proof fn lemma_u64_be_round_trip(v: u64)
    ensures
        u64_from_be_bytes(u64_be_bytes(v)) == v,
{
    assert(((((v >> 56) as u8) as u64) << 56) | ((((v >> 48) as u8) as u64) << 48)
        | ((((v >> 40) as u8) as u64) << 40) | ((((v >> 32) as u8) as u64) << 32)
        | ((((v >> 24) as u8) as u64) << 24) | ((((v >> 16) as u8) as u64) << 16)
        | ((((v >> 8) as u8) as u64) << 8) | ((v as u8) as u64) == v) by (bit_vector);
}

/// Round trip for one field: decoding a field's wire bytes under its own
/// kind yields the field.
pub proof fn lemma_field_round_trip(f: Field)
    ensures
        decode_field(field_kind(f), field_bytes(f)) == f,
{
    match f {
        Field::U8(v) => {},
        Field::U32(v) => {
            lemma_u32_be_round_trip(v);
        },
        Field::U64(v) => {
            lemma_u64_be_round_trip(v);
        },
    }
}

/// Re-encoding a decoded field reproduces exactly the bytes it was
/// decoded from.
pub proof fn lemma_field_reencode(k: FieldKind, b: Seq<u8>)
    requires
        b.len() == kind_width(k),
    ensures
        field_bytes(decode_field(k, b)) == b,
{
    match k {
        FieldKind::U8 => {
            assert(field_bytes(decode_field(k, b)) =~= b);
        },
        FieldKind::U32 => {
            let b0 = b[0];
            let b1 = b[1];
            let b2 = b[2];
            let b3 = b[3];
            assert({
                let x = ((b0 as u32) << 24) | ((b1 as u32) << 16) | ((b2 as u32) << 8) | (
                b3 as u32);
                (x >> 24) as u8 == b0 && (x >> 16) as u8 == b1 && (x >> 8) as u8 == b2 && x as u8
                    == b3
            }) by (bit_vector);
            assert(field_bytes(decode_field(k, b)) =~= b);
        },
        FieldKind::U64 => {
            let b0 = b[0];
            let b1 = b[1];
            let b2 = b[2];
            let b3 = b[3];
            let b4 = b[4];
            let b5 = b[5];
            let b6 = b[6];
            let b7 = b[7];
            assert({
                let x = ((b0 as u64) << 56) | ((b1 as u64) << 48) | ((b2 as u64) << 40) | ((
                b3 as u64) << 32) | ((b4 as u64) << 24) | ((b5 as u64) << 16) | ((b6 as u64) << 8)
                    | (b7 as u64);
                (x >> 56) as u8 == b0 && (x >> 48) as u8 == b1 && (x >> 40) as u8 == b2 && (x
                    >> 32) as u8 == b3 && (x >> 24) as u8 == b4 && (x >> 16) as u8 == b5 && (x
                    >> 8) as u8 == b6 && x as u8 == b7
            }) by (bit_vector);
            assert(field_bytes(decode_field(k, b)) =~= b);
        },
    }
}

/// Big-endian law for 32-bit fields: the first wire byte is the most
/// significant byte of the value.
pub proof fn lemma_big_endian_u32(v: u32)
    ensures
        field_bytes(Field::U32(v))[0] == v / 0x1000000,
{
    assert((v >> 24) as u8 == v / 0x1000000) by (bit_vector);
}

/// Big-endian law for 64-bit fields: the first wire byte is the most
/// significant byte of the value.
pub proof fn lemma_big_endian_u64(v: u64)
    ensures
        field_bytes(Field::U64(v))[0] == v / 0x100000000000000,
{
    assert((v >> 56) as u8 == v / 0x100000000000000) by (bit_vector);
}

/// The 8-bit value a field holds; callable only on fields of that kind.
pub fn as_u8(f: &Field) -> (v: u8)
    requires
        field_kind(*f) == FieldKind::U8,
    ensures
        *f == Field::U8(v),
{
    match *f {
        Field::U8(v) => v,
        _ => 0,  // unreachable: the field's kind pins its variant
    }
}

/// The 32-bit value a field holds; callable only on fields of that kind.
pub fn as_u32(f: &Field) -> (v: u32)
    requires
        field_kind(*f) == FieldKind::U32,
    ensures
        *f == Field::U32(v),
{
    match *f {
        Field::U32(v) => v,
        _ => 0,  // unreachable: the field's kind pins its variant
    }
}

/// The 64-bit value a field holds; callable only on fields of that kind.
pub fn as_u64(f: &Field) -> (v: u64)
    requires
        field_kind(*f) == FieldKind::U64,
    ensures
        *f == Field::U64(v),
{
    match *f {
        Field::U64(v) => v,
        _ => 0,  // unreachable: the field's kind pins its variant
    }
}

/// Append one field's wire form to `out`.
pub fn push_field_bytes(f: &Field, out: &mut Vec<u8>)
    ensures
        final(out)@ == old(out)@ + field_bytes(*f),
{
    match *f {
        Field::U8(v) => {
            out.push(v);
        },
        Field::U32(v) => {
            out.push(#[verifier::truncate] ((v >> 24) as u8));
            out.push(#[verifier::truncate] ((v >> 16) as u8));
            out.push(#[verifier::truncate] ((v >> 8) as u8));
            out.push(#[verifier::truncate] (v as u8));
        },
        Field::U64(v) => {
            out.push(#[verifier::truncate] ((v >> 56) as u8));
            out.push(#[verifier::truncate] ((v >> 48) as u8));
            out.push(#[verifier::truncate] ((v >> 40) as u8));
            out.push(#[verifier::truncate] ((v >> 32) as u8));
            out.push(#[verifier::truncate] ((v >> 24) as u8));
            out.push(#[verifier::truncate] ((v >> 16) as u8));
            out.push(#[verifier::truncate] ((v >> 8) as u8));
            out.push(#[verifier::truncate] (v as u8));
        },
    }
    assert(out@ =~= old(out)@ + field_bytes(*f));
}

/// Read one field of kind `k` from `buf`, starting at byte offset `at`.
pub fn read_field(k: FieldKind, buf: &[u8], at: usize) -> (f: Field)
    requires
        at + kind_width(k) <= buf@.len(),
    ensures
        f == decode_field(k, buf@.subrange(at as int, at + kind_width(k))),
{
    match k {
        FieldKind::U8 => {
            let f = Field::U8(buf[at]);
            proof {
                assert(buf@.subrange(at as int, at as int + 1)[0] == buf@[at as int]);
            }
            f
        },
        FieldKind::U32 => {
            let v = ((buf[at] as u32) << 24) | ((buf[at + 1] as u32) << 16) | ((buf[at + 2]
                as u32) << 8) | (buf[at + 3] as u32);
            proof {
                let sub = buf@.subrange(at as int, at as int + 4);
                assert(sub[0] == buf@[at as int]);
                assert(sub[1] == buf@[at as int + 1]);
                assert(sub[2] == buf@[at as int + 2]);
                assert(sub[3] == buf@[at as int + 3]);
            }
            Field::U32(v)
        },
        FieldKind::U64 => {
            let v = ((buf[at] as u64) << 56) | ((buf[at + 1] as u64) << 48) | ((buf[at + 2]
                as u64) << 40) | ((buf[at + 3] as u64) << 32) | ((buf[at + 4] as u64) << 24) | ((
            buf[at + 5] as u64) << 16) | ((buf[at + 6] as u64) << 8) | (buf[at + 7] as u64);
            proof {
                let sub = buf@.subrange(at as int, at as int + 8);
                assert(sub[0] == buf@[at as int]);
                assert(sub[1] == buf@[at as int + 1]);
                assert(sub[2] == buf@[at as int + 2]);
                assert(sub[3] == buf@[at as int + 3]);
                assert(sub[4] == buf@[at as int + 4]);
                assert(sub[5] == buf@[at as int + 5]);
                assert(sub[6] == buf@[at as int + 6]);
                assert(sub[7] == buf@[at as int + 7]);
            }
            Field::U64(v)
        },
    }
}

} // verus!
