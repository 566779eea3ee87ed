//! Whole records: their wire form, layouts, the executable codec, and the
//! laws the codec obeys.

use vstd::prelude::*;

use crate::fields::{
    decode_field, field_bytes, field_kind, field_width, kind_width, lemma_decode_field_kind,
    lemma_field_bytes_len, lemma_field_round_trip, read_field, Field, FieldKind,
};
use crate::{DeserializeError, SerializeError};

verus! {

/// The wire form of a record: its fields' bytes, edge to edge, in declared
/// order, with no padding, tags, or length prefixes.
pub open spec fn record_bytes(fs: Seq<Field>) -> Seq<u8>
    decreases fs.len(),
{
    if fs.len() == 0 {
        Seq::empty()
    } else {
        field_bytes(fs[0]) + record_bytes(fs.drop_first())
    }
}

/// The kinds of a record's fields, in declared order.
pub open spec fn kinds_of(fs: Seq<Field>) -> Seq<FieldKind> {
    fs.map_values(|f: Field| field_kind(f))
}

/// The total wire width of a layout: the sum of its kinds' widths.
pub open spec fn layout_width(ks: Seq<FieldKind>) -> nat
    decreases ks.len(),
{
    if ks.len() == 0 {
        0
    } else {
        kind_width(ks[0]) + layout_width(ks.drop_first())
    }
}

/// The byte offset at which field `i` of a layout starts on the wire.
pub open spec fn field_offset(ks: Seq<FieldKind>, i: int) -> nat {
    layout_width(ks.take(i))
}

/// What decoding a buffer under a layout yields: each field read from its
/// own slot of the buffer. Bytes past the layout's width play no part.
pub open spec fn decode_record(ks: Seq<FieldKind>, b: Seq<u8>) -> Seq<Field> {
    Seq::new(
        ks.len(),
        |i: int|
            decode_field(
                ks[i],
                b.subrange(field_offset(ks, i) as int, (field_offset(ks, i) + kind_width(ks[i])) as int),
            ),
    )
}

/// `base` with `content` written over its bytes starting at `at`; the bytes
/// before and after stay as they were.
pub open spec fn splice_at(base: Seq<u8>, at: int, content: Seq<u8>) -> Seq<u8>
    recommends
        0 <= at,
        at + content.len() <= base.len(),
{
    base.take(at) + content + base.skip(at + content.len())
}

/// How many leading whole fields of `fs` fit in `space` bytes: writing
/// stops before the first field whose wire form would run past the end.
pub open spec fn fit_count(fs: Seq<Field>, space: nat) -> nat
    decreases fs.len(),
{
    if fs.len() == 0 || field_width(fs[0]) > space {
        0
    } else {
        1 + fit_count(fs.drop_first(), (space - field_width(fs[0])) as nat)
    }
}

/// A layout's width splits at any point into the width of the part before
/// and the width of the part after.
pub proof fn lemma_layout_width_split(ks: Seq<FieldKind>, j: int)
    requires
        0 <= j <= ks.len(),
    ensures
        layout_width(ks) == layout_width(ks.take(j)) + layout_width(ks.skip(j)),
    decreases ks.len(),
{
    if j == 0 {
        assert(ks.take(0) =~= Seq::<FieldKind>::empty());
        assert(ks.skip(0) =~= ks);
    } else {
        let d = ks.drop_first();
        lemma_layout_width_split(d, j - 1);
        assert(ks.take(j).drop_first() =~= d.take(j - 1));
        assert(ks.skip(j) =~= d.skip(j - 1));
        assert(layout_width(ks.take(j)) == kind_width(ks[0]) + layout_width(d.take(j - 1)));
    }
}

/// Field `i + 1` starts where field `i` ends.
pub proof fn lemma_field_offset_succ(ks: Seq<FieldKind>, i: int)
    requires
        0 <= i < ks.len(),
    ensures
        field_offset(ks, i + 1) == field_offset(ks, i) + kind_width(ks[i]),
{
    let t = ks.take(i + 1);
    lemma_layout_width_split(t, i);
    assert(t.take(i) =~= ks.take(i));
    assert(t.skip(i) =~= seq![ks[i]]);
    assert(seq![ks[i]].drop_first() =~= Seq::<FieldKind>::empty());
    assert(layout_width(Seq::<FieldKind>::empty()) == 0);
    assert(layout_width(seq![ks[i]]) == kind_width(seq![ks[i]][0]) + layout_width(
        seq![ks[i]].drop_first(),
    ));
    assert(layout_width(seq![ks[i]]) == kind_width(ks[i]));
}

/// Every field's slot lies inside the layout's width.
pub proof fn lemma_field_offset_in_bounds(ks: Seq<FieldKind>, i: int)
    requires
        0 <= i < ks.len(),
    ensures
        field_offset(ks, i) + kind_width(ks[i]) <= layout_width(ks),
{
    lemma_field_offset_succ(ks, i);
    lemma_layout_width_split(ks, i + 1);
}

/// Fixed-width law for records: a record's wire form is exactly as long as
/// its layout's width, whatever the fields' values.
pub proof fn lemma_record_bytes_len(fs: Seq<Field>)
    ensures
        record_bytes(fs).len() == layout_width(kinds_of(fs)),
    decreases fs.len(),
{
    if fs.len() == 0 {
        assert(kinds_of(fs) =~= Seq::<FieldKind>::empty());
    } else {
        lemma_record_bytes_len(fs.drop_first());
        assert(kinds_of(fs).drop_first() =~= kinds_of(fs.drop_first()));
        lemma_field_bytes_len(fs[0]);
        assert(kinds_of(fs)[0] == field_kind(fs[0]));
    }
}

/// Appending a field to a record appends its bytes to the wire form.
pub proof fn lemma_record_bytes_push(fs: Seq<Field>, f: Field)
    ensures
        record_bytes(fs.push(f)) == record_bytes(fs) + field_bytes(f),
    decreases fs.len(),
{
    if fs.len() == 0 {
        assert(fs.push(f).drop_first() =~= Seq::<Field>::empty());
        assert(fs.push(f)[0] == f);
        assert(record_bytes(Seq::<Field>::empty()) == Seq::<u8>::empty());
        assert(record_bytes(fs.push(f)) == field_bytes(f) + record_bytes(
            fs.push(f).drop_first(),
        ));
        assert(record_bytes(fs.push(f)) =~= record_bytes(fs) + field_bytes(f));
    } else {
        lemma_record_bytes_push(fs.drop_first(), f);
        assert(fs.push(f).drop_first() =~= fs.drop_first().push(f));
        assert(fs.push(f)[0] == fs[0]);
        assert(record_bytes(fs.push(f)) =~= record_bytes(fs) + field_bytes(f));
    }
}

/// A prefix of a record has the prefix of the layout's width on the wire.
pub proof fn lemma_record_bytes_prefix_len(fs: Seq<Field>, i: int)
    requires
        0 <= i <= fs.len(),
    ensures
        record_bytes(fs.take(i)).len() == field_offset(kinds_of(fs), i),
        record_bytes(fs.take(i)).len() <= record_bytes(fs).len(),
{
    lemma_record_bytes_len(fs);
    lemma_record_bytes_len(fs.take(i));
    assert(kinds_of(fs.take(i)) =~= kinds_of(fs).take(i));
    lemma_layout_width_split(kinds_of(fs), i);
}

/// Field `i` of a record stands in its own slot of the wire form.
pub proof fn lemma_record_bytes_slot(fs: Seq<Field>, i: int)
    requires
        0 <= i < fs.len(),
    ensures
        field_offset(kinds_of(fs), i) + field_width(fs[i]) <= record_bytes(fs).len(),
        record_bytes(fs).subrange(
            field_offset(kinds_of(fs), i) as int,
            (field_offset(kinds_of(fs), i) + field_width(fs[i])) as int,
        ) == field_bytes(fs[i]),
    decreases i,
{
    let ks = kinds_of(fs);
    lemma_record_bytes_len(fs);
    assert(ks[i] == field_kind(fs[i]));
    lemma_field_offset_in_bounds(ks, i);
    lemma_field_bytes_len(fs[0]);
    lemma_field_bytes_len(fs[i]);
    let a = field_bytes(fs[0]);
    let rest = record_bytes(fs.drop_first());
    assert(record_bytes(fs) == a + rest);
    if i == 0 {
        assert(ks.take(0) =~= Seq::<FieldKind>::empty());
        assert(record_bytes(fs).subrange(0, field_width(fs[0]) as int) =~= a);
    } else {
        let d = fs.drop_first();
        let kd = kinds_of(d);
        lemma_record_bytes_slot(d, i - 1);
        lemma_record_bytes_len(d);
        assert(ks.drop_first() =~= kd);
        assert(ks.take(i).drop_first() =~= kd.take(i - 1));
        assert(layout_width(ks.take(i)) == kind_width(ks[0]) + layout_width(kd.take(i - 1)));
        let x = field_offset(kd, i - 1) as int;
        let w = field_width(d[i - 1]) as int;
        assert(d[i - 1] == fs[i]);
        assert(field_offset(ks, i) == a.len() + x);
        assert(record_bytes(fs).subrange(a.len() + x, a.len() + x + w) =~= rest.subrange(
            x,
            x + w,
        ));
    }
}

/// Round-trip law: decoding a record's wire form under the record's own
/// layout yields the record, field for field.
pub proof fn lemma_round_trip(fs: Seq<Field>)
    ensures
        decode_record(kinds_of(fs), record_bytes(fs)) == fs,
{
    let ks = kinds_of(fs);
    let b = record_bytes(fs);
    assert forall|i: int| 0 <= i < fs.len() implies decode_record(ks, b)[i] == fs[i] by {
        lemma_record_bytes_slot(fs, i);
        lemma_field_round_trip(fs[i]);
        assert(ks[i] == field_kind(fs[i]));
    }
    assert(decode_record(ks, b) =~= fs);
}

/// Big-endian law: within a record's wire form, the first byte of any
/// multi-byte integer field's slot is the value's most significant byte.
pub proof fn lemma_record_big_endian(fs: Seq<Field>, i: int)
    requires
        0 <= i < fs.len(),
    ensures
        fs[i] matches Field::U32(v) ==> record_bytes(fs)[field_offset(kinds_of(fs), i) as int]
            == v / 0x1000000,
        fs[i] matches Field::U64(v) ==> record_bytes(fs)[field_offset(kinds_of(fs), i) as int]
            == v / 0x100000000000000,
{
    lemma_record_bytes_slot(fs, i);
    let sub = record_bytes(fs).subrange(
        field_offset(kinds_of(fs), i) as int,
        (field_offset(kinds_of(fs), i) + field_width(fs[i])) as int,
    );
    match fs[i] {
        Field::U8(_) => {},
        Field::U32(v) => {
            crate::fields::lemma_big_endian_u32(v);
            assert(sub[0] == record_bytes(fs)[field_offset(kinds_of(fs), i) as int]);
        },
        Field::U64(v) => {
            crate::fields::lemma_big_endian_u64(v);
            assert(sub[0] == record_bytes(fs)[field_offset(kinds_of(fs), i) as int]);
        },
    }
}

/// Trailing-tolerance law: bytes appended after the record's fields change
/// nothing about what decodes.
pub proof fn lemma_trailing_tolerance(ks: Seq<FieldKind>, b: Seq<u8>, extra: Seq<u8>)
    requires
        layout_width(ks) <= b.len(),
    ensures
        decode_record(ks, b + extra) == decode_record(ks, b),
{
    assert forall|i: int| 0 <= i < ks.len() implies decode_record(ks, b + extra)[i]
        == decode_record(ks, b)[i] by {
        lemma_field_offset_in_bounds(ks, i);
        let lo = field_offset(ks, i) as int;
        let hi = lo + kind_width(ks[i]);
        assert((b + extra).subrange(lo, hi) =~= b.subrange(lo, hi));
    }
    assert(decode_record(ks, b + extra) =~= decode_record(ks, b));
}

/// Decoding splits: the first field comes from the buffer's first slot,
/// and the remaining fields decode the rest of the buffer under the rest
/// of the layout.
pub proof fn lemma_decode_record_step(ks: Seq<FieldKind>, b: Seq<u8>)
    requires
        ks.len() > 0,
        layout_width(ks) <= b.len(),
    ensures
        decode_record(ks, b)[0] == decode_field(ks[0], b.subrange(0, kind_width(ks[0]) as int)),
        decode_record(ks, b).drop_first() == decode_record(
            ks.drop_first(),
            b.skip(kind_width(ks[0]) as int),
        ),
{
    let w0 = kind_width(ks[0]) as int;
    let kd = ks.drop_first();
    let bd = b.skip(w0);
    assert(ks.take(0) =~= Seq::<FieldKind>::empty());
    assert forall|i: int| 0 <= i < kd.len() implies decode_record(ks, b).drop_first()[i]
        == decode_record(kd, bd)[i] by {
        assert(ks.take(i + 1).drop_first() =~= kd.take(i));
        assert(ks.take(i + 1)[0] == ks[0]);
        assert(layout_width(ks.take(i + 1)) == kind_width(ks[0]) + layout_width(kd.take(i)));
        lemma_field_offset_in_bounds(kd, i);
        let x = field_offset(kd, i) as int;
        let wi = kind_width(kd[i]) as int;
        assert(b.subrange(w0 + x, w0 + x + wi) =~= bd.subrange(x, x + wi));
        assert(ks[i + 1] == kd[i]);
    }
    assert(decode_record(ks, b).drop_first() =~= decode_record(kd, bd));
}

/// Re-encoding law: encoding what was decoded reproduces exactly the bytes
/// consumed, the buffer's prefix of the layout's width; the tolerated
/// trailing bytes play no part.
pub proof fn lemma_record_reencode(ks: Seq<FieldKind>, b: Seq<u8>)
    requires
        layout_width(ks) <= b.len(),
    ensures
        record_bytes(decode_record(ks, b)) == b.take(layout_width(ks) as int),
    decreases ks.len(),
{
    let fs = decode_record(ks, b);
    if ks.len() == 0 {
        assert(fs =~= Seq::<Field>::empty());
        assert(record_bytes(fs) =~= b.take(layout_width(ks) as int));
    } else {
        let w0 = kind_width(ks[0]) as int;
        let kd = ks.drop_first();
        let bd = b.skip(w0);
        assert(layout_width(ks) == kind_width(ks[0]) + layout_width(kd));
        lemma_decode_record_step(ks, b);
        lemma_record_reencode(kd, bd);
        crate::fields::lemma_field_reencode(ks[0], b.subrange(0, w0));
        assert(record_bytes(fs) == field_bytes(fs[0]) + record_bytes(fs.drop_first()));
        assert(record_bytes(fs) =~= b.take(layout_width(ks) as int));
    }
}

/// Decoded fields follow the layout they were decoded under.
pub proof fn lemma_decode_record_kinds(ks: Seq<FieldKind>, b: Seq<u8>)
    ensures
        kinds_of(decode_record(ks, b)) == ks,
{
    let fs = decode_record(ks, b);
    assert forall|i: int| 0 <= i < ks.len() implies kinds_of(fs)[i] == ks[i] by {
        lemma_decode_field_kind(
            ks[i],
            b.subrange(field_offset(ks, i) as int, (field_offset(ks, i) + kind_width(ks[i])) as int),
        );
    }
    assert(kinds_of(fs) =~= ks);
}

/// When the whole record fits, every field fits.
pub proof fn lemma_fit_count_full(fs: Seq<Field>, space: nat)
    requires
        record_bytes(fs).len() <= space,
    ensures
        fit_count(fs, space) == fs.len(),
    decreases fs.len(),
{
    if fs.len() > 0 {
        lemma_field_bytes_len(fs[0]);
        lemma_fit_count_full(fs.drop_first(), (space - field_width(fs[0])) as nat);
    }
}

/// Writing stops exactly at the first field that does not fit whole.
pub proof fn lemma_fit_count_stops(fs: Seq<Field>, space: nat, i: int)
    requires
        0 <= i < fs.len(),
        record_bytes(fs.take(i)).len() <= space,
        record_bytes(fs.take(i)).len() + field_width(fs[i]) > space,
    ensures
        fit_count(fs, space) == i,
    decreases i,
{
    if i == 0 {
        assert(fs.take(0) =~= Seq::<Field>::empty());
    } else {
        let d = fs.drop_first();
        assert(fs.take(i).drop_first() =~= d.take(i - 1));
        assert(fs.take(i)[0] == fs[0]);
        lemma_field_bytes_len(fs[0]);
        let w0 = field_width(fs[0]);
        assert(record_bytes(fs.take(i)).len() == w0 + record_bytes(d.take(i - 1)).len());
        assert(d[i - 1] == fs[i]);
        lemma_fit_count_stops(d, (space - w0) as nat, i - 1);
    }
}

/// Writing `c2` right after an already written `c1` is one write of
/// `c1 + c2`.
pub proof fn lemma_splice_extend(base: Seq<u8>, c1: Seq<u8>, c2: Seq<u8>)
    requires
        c1.len() + c2.len() <= base.len(),
    ensures
        splice_at(splice_at(base, 0, c1), c1.len() as int, c2) == splice_at(base, 0, c1 + c2),
{
    let lhs = splice_at(splice_at(base, 0, c1), c1.len() as int, c2);
    let rhs = splice_at(base, 0, c1 + c2);
    assert forall|k: int| 0 <= k < lhs.len() implies lhs[k] == rhs[k] by {
        assert(splice_at(base, 0, c1).len() == base.len());
    }
    assert(lhs =~= rhs);
}

/// The wire width of a field kind, as an executable value.
pub fn width_of_kind(k: FieldKind) -> (w: usize)
    ensures
        w == kind_width(k),
{
    match k {
        FieldKind::U8 => 1,
        FieldKind::U32 => 4,
        FieldKind::U64 => 8,
    }
}

/// The wire width of a field value, as an executable value.
pub fn width_of_field(f: &Field) -> (w: usize)
    ensures
        w == field_width(*f),
{
    match *f {
        Field::U8(_) => 1,
        Field::U32(_) => 4,
        Field::U64(_) => 8,
    }
}

/// Write one field's wire form into `dst` at byte offset `at`, leaving the
/// rest of `dst` as it was. The destination keeps its length: nothing is
/// allocated.
pub fn write_field_at(f: &Field, dst: &mut Vec<u8>, at: usize)
    requires
        at + field_width(*f) <= old(dst)@.len(),
    ensures
        final(dst)@.len() == old(dst)@.len(),
        final(dst)@ == splice_at(old(dst)@, at as int, field_bytes(*f)),
{
    // the length call bounds the byte offsets below by usize
    let _n: usize = dst.len();
    match *f {
        Field::U8(v) => {
            dst.set(at, v);
        },
        Field::U32(v) => {
            dst.set(at, #[verifier::truncate] ((v >> 24) as u8));
            dst.set(at + 1, #[verifier::truncate] ((v >> 16) as u8));
            dst.set(at + 2, #[verifier::truncate] ((v >> 8) as u8));
            dst.set(at + 3, #[verifier::truncate] (v as u8));
        },
        Field::U64(v) => {
            dst.set(at, #[verifier::truncate] ((v >> 56) as u8));
            dst.set(at + 1, #[verifier::truncate] ((v >> 48) as u8));
            dst.set(at + 2, #[verifier::truncate] ((v >> 40) as u8));
            dst.set(at + 3, #[verifier::truncate] ((v >> 32) as u8));
            dst.set(at + 4, #[verifier::truncate] ((v >> 24) as u8));
            dst.set(at + 5, #[verifier::truncate] ((v >> 16) as u8));
            dst.set(at + 6, #[verifier::truncate] ((v >> 8) as u8));
            dst.set(at + 7, #[verifier::truncate] (v as u8));
        },
    }
    assert(dst@ =~= splice_at(old(dst)@, at as int, field_bytes(*f)));
}

/// Encode a record into a new buffer sized exactly to its wire form.
pub fn encode_fields(fs: &Vec<Field>) -> (out: Vec<u8>)
    ensures
        out@ == record_bytes(fs@),
{
    let mut out: Vec<u8> = Vec::new();
    let mut i: usize = 0;
    proof {
        assert(fs@.take(0) =~= Seq::<Field>::empty());
    }
    while i < fs.len()
        invariant
            0 <= i <= fs@.len(),
            out@ == record_bytes(fs@.take(i as int)),
        decreases fs@.len() - i,
    {
        proof {
            lemma_record_bytes_push(fs@.take(i as int), fs@[i as int]);
            assert(fs@.take(i as int).push(fs@[i as int]) =~= fs@.take(i as int + 1));
        }
        crate::fields::push_field_bytes(&fs[i], &mut out);
        i = i + 1;
    }
    proof {
        assert(fs@.take(fs@.len() as int) =~= fs@);
    }
    out
}

/// Encode a record into a caller-owned buffer, writing from its start and
/// never changing its length.
///
/// Fields go in one whole field at a time, in declared order; the call
/// fails when the next field's wire form would run past the end of the
/// buffer, and the fields already written stay written: partial output is
/// not rolled back.
pub fn encode_fields_into(fs: &Vec<Field>, dst: &mut Vec<u8>) -> (r: Result<(), SerializeError>)
    ensures
        final(dst)@.len() == old(dst)@.len(),
        r is Ok <==> record_bytes(fs@).len() <= old(dst)@.len(),
        final(dst)@ == splice_at(
            old(dst)@,
            0,
            record_bytes(fs@.take(fit_count(fs@, old(dst)@.len() as nat) as int)),
        ),
        r is Ok ==> final(dst)@ == splice_at(old(dst)@, 0, record_bytes(fs@)),
{
    let ghost base = old(dst)@;
    let mut pos: usize = 0;
    let mut i: usize = 0;
    proof {
        assert(fs@.take(0) =~= Seq::<Field>::empty());
        assert(splice_at(base, 0, Seq::<u8>::empty()) =~= base);
    }
    while i < fs.len()
        invariant
            0 <= i <= fs@.len(),
            base == old(dst)@,
            dst@.len() == base.len(),
            pos == record_bytes(fs@.take(i as int)).len(),
            pos <= base.len(),
            dst@ == splice_at(base, 0, record_bytes(fs@.take(i as int))),
        decreases fs@.len() - i,
    {
        let w = width_of_field(&fs[i]);
        if dst.len() - pos < w {
            proof {
                let ks = kinds_of(fs@);
                lemma_record_bytes_len(fs@);
                lemma_record_bytes_prefix_len(fs@, i as int);
                lemma_layout_width_split(ks, i as int);
                assert(ks.skip(i as int)[0] == ks[i as int]);
                assert(layout_width(ks.skip(i as int)) == kind_width(ks[i as int]) + layout_width(
                    ks.skip(i as int).drop_first(),
                ));
                assert(ks[i as int] == field_kind(fs@[i as int]));
                assert(record_bytes(fs@).len() >= pos + w);
                lemma_fit_count_stops(fs@, base.len() as nat, i as int);
            }
            return Err(SerializeError);
        }
        let ghost written = record_bytes(fs@.take(i as int));
        write_field_at(&fs[i], dst, pos);
        proof {
            lemma_field_bytes_len(fs@[i as int]);
            lemma_record_bytes_push(fs@.take(i as int), fs@[i as int]);
            assert(fs@.take(i as int).push(fs@[i as int]) =~= fs@.take(i as int + 1));
            lemma_splice_extend(base, written, field_bytes(fs@[i as int]));
        }
        pos = pos + w;
        i = i + 1;
    }
    proof {
        assert(fs@.take(fs@.len() as int) =~= fs@);
        lemma_fit_count_full(fs@, base.len() as nat);
    }
    Ok(())
}

/// Decode a record under a layout, reading fields in declared order from
/// the front of `buf`. Exactly the layout's width is consumed; any bytes
/// past that point are ignored and no error. Fails when the buffer is
/// shorter than the layout requires.
pub fn decode_fields(layout: &Vec<FieldKind>, buf: &[u8]) -> (r: Result<
    Vec<Field>,
    DeserializeError,
>)
    ensures
        r is Ok <==> layout_width(layout@) <= buf@.len(),
        r matches Ok(fs) ==> fs@ == decode_record(layout@, buf@),
        r matches Ok(fs) ==> kinds_of(fs@) == layout@,
{
    let ghost ks = layout@;
    let mut out: Vec<Field> = Vec::new();
    let mut pos: usize = 0;
    let mut i: usize = 0;
    proof {
        assert(ks.take(0) =~= Seq::<FieldKind>::empty());
    }
    while i < layout.len()
        invariant
            0 <= i <= ks.len(),
            ks == layout@,
            pos == field_offset(ks, i as int),
            pos <= buf@.len(),
            out@.len() == i,
            forall|j: int| 0 <= j < i ==> out@[j] == decode_record(ks, buf@)[j],
        decreases ks.len() - i,
    {
        let w = width_of_kind(layout[i]);
        if buf.len() - pos < w {
            proof {
                lemma_field_offset_succ(ks, i as int);
                lemma_layout_width_split(ks, i as int + 1);
            }
            return Err(DeserializeError);
        }
        let f = read_field(layout[i], buf, pos);
        out.push(f);
        proof {
            lemma_field_offset_succ(ks, i as int);
        }
        pos = pos + w;
        i = i + 1;
    }
    proof {
        assert(ks.take(ks.len() as int) =~= ks);
        assert(out@ =~= decode_record(ks, buf@));
        lemma_decode_record_kinds(ks, buf@);
    }
    Ok(out)
}

} // verus!
