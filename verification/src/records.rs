//! Record types: the capability a type declares so the codec can encode
//! and decode it, and the wire records this crate ships.

use vstd::prelude::*;

use crate::codec::{
    decode_fields, decode_record, encode_fields, encode_fields_into, fit_count, kinds_of,
    layout_width, lemma_round_trip, record_bytes, splice_at,
};
use crate::fields::{as_u32, as_u64, as_u8, field_kind, Field, FieldKind};
use crate::{DeserializeError, SerializeError};

verus! {

/// Binary serialize/deserialize helper functions.
///
/// A record type declares a deterministic, ordered enumeration of its
/// fixed-width fields, and the codec operates only against that
/// declaration. All three operations follow the canonical configuration:
/// big endian, fixed integer widths, trailing bytes tolerated on decode.
pub trait BinSerDe: Sized {
    /// The record's fields, in declared order.
    spec fn spec_fields(&self) -> Seq<Field>;

    /// The type's layout: its fields' kinds, in declared order.
    spec fn spec_layout() -> Seq<FieldKind>;

    /// Every value's fields follow the type's layout.
    proof fn lemma_fields_follow_layout(&self)
        ensures
            kinds_of(self.spec_fields()) == Self::spec_layout(),
    ;

    /// A record is determined by its fields: no two values share them.
    proof fn lemma_fields_injective(a: &Self, b: &Self)
        requires
            a.spec_fields() == b.spec_fields(),
        ensures
            a == b,
    ;

    /// The record's fields, as an executable value.
    fn fields(&self) -> (fs: Vec<Field>)
        ensures
            fs@ == self.spec_fields(),
    ;

    /// The type's layout, as an executable value.
    fn layout() -> (ks: Vec<FieldKind>)
        ensures
            ks@ == Self::spec_layout(),
    ;

    /// Rebuild a record from its decoded fields.
    fn from_fields(fs: &Vec<Field>) -> (r: Self)
        requires
            kinds_of(fs@) == Self::spec_layout(),
        ensures
            r.spec_fields() == fs@,
    ;

    /// Serialize into an existing caller-owned buffer, writing from its
    /// start and never changing its length.
    ///
    /// Fails exactly when the buffer cannot hold the whole wire form; the
    /// fields already written by then stay written (partial output is not
    /// rolled back).
    fn bser_into(&self, dst: &mut Vec<u8>) -> (r: Result<(), SerializeError>)
        ensures
            final(dst)@.len() == old(dst)@.len(),
            r is Ok <==> record_bytes(self.spec_fields()).len() <= old(dst)@.len(),
            final(dst)@ == splice_at(
                old(dst)@,
                0,
                record_bytes(
                    self.spec_fields().take(
                        fit_count(self.spec_fields(), old(dst)@.len() as nat) as int,
                    ),
                ),
            ),
            r is Ok ==> final(dst)@ == splice_at(old(dst)@, 0, record_bytes(self.spec_fields())),
    {
        let fs = self.fields();
        encode_fields_into(&fs, dst)
    }

    /// Serialize into a new heap-allocated buffer sized exactly to the
    /// record's wire form. Succeeds on every record.
    fn bser(&self) -> (r: Result<Vec<u8>, SerializeError>)
        ensures
            r matches Ok(b) && b@ == record_bytes(self.spec_fields()),
    {
        let fs = self.fields();
        Ok(encode_fields(&fs))
    }

    /// Deserialize from the front of `buf`, consuming exactly the layout's
    /// width; extra trailing bytes are ignored. Fails exactly when the
    /// buffer is shorter than the layout requires.
    fn bdes(buf: &[u8]) -> (r: Result<Self, DeserializeError>)
        ensures
            r is Ok <==> layout_width(Self::spec_layout()) <= buf@.len(),
            r matches Ok(rec) ==> rec.spec_fields() == decode_record(Self::spec_layout(), buf@),
    {
        let ks = Self::layout();
        match decode_fields(&ks, buf) {
            Ok(fs) => Ok(Self::from_fields(&fs)),
            Err(e) => Err(e),
        }
    }
}

/// Round-trip law for typed records: a record whose fields are what
/// decoding another record's wire form yields is that record.
pub proof fn lemma_record_round_trip<T: BinSerDe>(orig: &T, decoded: &T)
    requires
        decoded.spec_fields() == decode_record(
            T::spec_layout(),
            record_bytes(orig.spec_fields()),
        ),
    ensures
        decoded == orig,
{
    orig.lemma_fields_follow_layout();
    lemma_round_trip(orig.spec_fields());
    T::lemma_fields_injective(decoded, orig);
}

/// A small two-field record: one 8-bit and one 32-bit integer.
#[derive(Debug, Clone, Copy, PartialEq, Eq, Structural)]
pub struct ShortStruct {
    pub a: u8,
    pub b: u32,
}

impl BinSerDe for ShortStruct {
    open spec fn spec_fields(&self) -> Seq<Field> {
        seq![Field::U8(self.a), Field::U32(self.b)]
    }

    open spec fn spec_layout() -> Seq<FieldKind> {
        seq![FieldKind::U8, FieldKind::U32]
    }

    proof fn lemma_fields_follow_layout(&self) {
        assert(kinds_of(self.spec_fields()) =~= Self::spec_layout());
    }

    proof fn lemma_fields_injective(a: &Self, b: &Self) {
        assert(a.spec_fields()[0] == b.spec_fields()[0]);
        assert(a.spec_fields()[1] == b.spec_fields()[1]);
    }

    fn fields(&self) -> (fs: Vec<Field>) {
        let mut fs: Vec<Field> = Vec::new();
        fs.push(Field::U8(self.a));
        fs.push(Field::U32(self.b));
        proof {
            assert(fs@ =~= self.spec_fields());
        }
        fs
    }

    fn layout() -> (ks: Vec<FieldKind>) {
        let mut ks: Vec<FieldKind> = Vec::new();
        ks.push(FieldKind::U8);
        ks.push(FieldKind::U32);
        proof {
            assert(ks@ =~= Self::spec_layout());
        }
        ks
    }

    fn from_fields(fs: &Vec<Field>) -> (r: Self) {
        proof {
            assert(kinds_of(fs@).len() == fs@.len());
            assert(kinds_of(fs@)[0] == field_kind(fs@[0]));
            assert(kinds_of(fs@)[1] == field_kind(fs@[1]));
        }
        let a = as_u8(&fs[0]);
        let b = as_u32(&fs[1]);
        let r = ShortStruct { a, b };
        proof {
            assert(r.spec_fields() =~= fs@);
        }
        r
    }
}

/// A replication-protocol standby status message, as it crosses the wire:
/// a tag byte, four 64-bit positions and timestamps, and a reply flag.
#[derive(Debug, Clone, Copy, PartialEq, Eq, Structural)]
pub struct PgReplicationMsg {
    pub tag: u8,
    pub blockpos: u64,
    pub last_flush_position: u64,
    pub apply: u64,
    pub timestamp: u64,
    pub reply_requested: u8,
}

impl BinSerDe for PgReplicationMsg {
    open spec fn spec_fields(&self) -> Seq<Field> {
        seq![
            Field::U8(self.tag),
            Field::U64(self.blockpos),
            Field::U64(self.last_flush_position),
            Field::U64(self.apply),
            Field::U64(self.timestamp),
            Field::U8(self.reply_requested),
        ]
    }

    open spec fn spec_layout() -> Seq<FieldKind> {
        seq![
            FieldKind::U8,
            FieldKind::U64,
            FieldKind::U64,
            FieldKind::U64,
            FieldKind::U64,
            FieldKind::U8,
        ]
    }

    proof fn lemma_fields_follow_layout(&self) {
        assert(kinds_of(self.spec_fields()) =~= Self::spec_layout());
    }

    proof fn lemma_fields_injective(a: &Self, b: &Self) {
        assert(a.spec_fields()[0] == b.spec_fields()[0]);
        assert(a.spec_fields()[1] == b.spec_fields()[1]);
        assert(a.spec_fields()[2] == b.spec_fields()[2]);
        assert(a.spec_fields()[3] == b.spec_fields()[3]);
        assert(a.spec_fields()[4] == b.spec_fields()[4]);
        assert(a.spec_fields()[5] == b.spec_fields()[5]);
    }

    fn fields(&self) -> (fs: Vec<Field>) {
        let mut fs: Vec<Field> = Vec::new();
        fs.push(Field::U8(self.tag));
        fs.push(Field::U64(self.blockpos));
        fs.push(Field::U64(self.last_flush_position));
        fs.push(Field::U64(self.apply));
        fs.push(Field::U64(self.timestamp));
        fs.push(Field::U8(self.reply_requested));
        proof {
            assert(fs@ =~= self.spec_fields());
        }
        fs
    }

    fn layout() -> (ks: Vec<FieldKind>) {
        let mut ks: Vec<FieldKind> = Vec::new();
        ks.push(FieldKind::U8);
        ks.push(FieldKind::U64);
        ks.push(FieldKind::U64);
        ks.push(FieldKind::U64);
        ks.push(FieldKind::U64);
        ks.push(FieldKind::U8);
        proof {
            assert(ks@ =~= Self::spec_layout());
        }
        ks
    }

    fn from_fields(fs: &Vec<Field>) -> (r: Self) {
        proof {
            assert(kinds_of(fs@).len() == fs@.len());
            assert(kinds_of(fs@)[0] == field_kind(fs@[0]));
            assert(kinds_of(fs@)[1] == field_kind(fs@[1]));
            assert(kinds_of(fs@)[2] == field_kind(fs@[2]));
            assert(kinds_of(fs@)[3] == field_kind(fs@[3]));
            assert(kinds_of(fs@)[4] == field_kind(fs@[4]));
            assert(kinds_of(fs@)[5] == field_kind(fs@[5]));
        }
        let tag = as_u8(&fs[0]);
        let blockpos = as_u64(&fs[1]);
        let last_flush_position = as_u64(&fs[2]);
        let apply = as_u64(&fs[3]);
        let timestamp = as_u64(&fs[4]);
        let reply_requested = as_u8(&fs[5]);
        let r = PgReplicationMsg {
            tag,
            blockpos,
            last_flush_position,
            apply,
            timestamp,
            reply_requested,
        };
        proof {
            assert(r.spec_fields() =~= fs@);
        }
        r
    }
}

/// A keep-alive reply, as a caller-side domain object; it maps onto a
/// [`PgReplicationMsg`] before it is encoded.
#[derive(Debug, Clone, Copy, PartialEq, Eq, Structural)]
pub struct KeepAliveReply {
    pub blockpos: u64,
    pub timestamp: u64,
}

impl From<KeepAliveReply> for PgReplicationMsg {
    fn from(keepalive: KeepAliveReply) -> (m: PgReplicationMsg) {
        PgReplicationMsg {
            tag: 114,  // the tag byte of a standby status update: ASCII 'r'
            blockpos: keepalive.blockpos,
            timestamp: keepalive.timestamp,
            last_flush_position: 0,
            apply: 0,
            reply_requested: 0,
        }
    }
}

impl vstd::std_specs::convert::FromSpecImpl<KeepAliveReply> for PgReplicationMsg {
    open spec fn obeys_from_spec() -> bool {
        true
    }

    open spec fn from_spec(keepalive: KeepAliveReply) -> PgReplicationMsg {
        PgReplicationMsg {
            tag: 114,  // the tag byte of a standby status update: ASCII 'r'
            blockpos: keepalive.blockpos,
            timestamp: keepalive.timestamp,
            last_flush_position: 0,
            apply: 0,
            reply_requested: 0,
        }
    }
}

} // verus!
