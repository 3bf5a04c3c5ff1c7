//! Binary layout of everything the server sends.
//!
//! Every integer is four bytes, most significant byte first; signed values
//! are in two's complement. The handshake is the assigned player id alone.
//! A broadcast is the visible entities' records one after another with no
//! header: each record is 28 bytes, the id followed by the three position
//! coordinates and the three rotation coordinates. An empty broadcast is an
//! empty payload.

use vstd::prelude::*;
use vstd::arithmetic::div_mod::lemma_fundamental_div_mod_converse;
use crate::geometry::{Position, Rotation};

verus! {

/// Bytes of one integer on the wire.
pub const WORD_LEN: usize = 4;

/// Bytes of one entity record on the wire.
pub const RECORD_LEN: usize = 28;

/// What a player is told about one visible entity.
#[derive(Clone, Copy, Debug, PartialEq, Eq)]
pub struct EntityRecord {
    pub id: u32,
    pub position: Position,
    pub rotation: Rotation,
}

/// The four bytes of `v`, most significant first.
pub open spec fn be_bytes(v: u32) -> Seq<u8> {
    seq![
        (v / 0x100_0000) as u8,
        ((v / 0x1_0000) % 0x100) as u8,
        ((v / 0x100) % 0x100) as u8,
        (v % 0x100) as u8,
    ]
}

/// The integer that four bytes spell, most significant first.
pub open spec fn be_value(b: Seq<u8>) -> int
    recommends
        b.len() == 4,
{
    b[0] * 0x100_0000 + b[1] * 0x1_0000 + b[2] * 0x100 + b[3]
}

/// Two's complement: the unsigned integer with the bit pattern of `x`.
pub open spec fn to_unsigned(x: i32) -> u32 {
    if x >= 0 {
        x as u32
    } else {
        (x + 0x1_0000_0000) as u32
    }
}

/// Two's complement: the signed integer with the bit pattern of `u`.
pub open spec fn to_signed(u: u32) -> i32 {
    if u < 0x8000_0000 {
        u as i32
    } else {
        (u - 0x1_0000_0000) as i32
    }
}

/// The twelve bytes of a triple of signed integers.
pub open spec fn triple_bytes(t: (i32, i32, i32)) -> Seq<u8> {
    be_bytes(to_unsigned(t.0)) + be_bytes(to_unsigned(t.1)) + be_bytes(to_unsigned(t.2))
}

/// The 28 bytes of one record.
pub open spec fn record_bytes(r: EntityRecord) -> Seq<u8> {
    be_bytes(r.id) + triple_bytes(r.position) + triple_bytes(r.rotation)
}

/// The payload of a broadcast: the records' bytes in order.
pub open spec fn batch_bytes(batch: Seq<EntityRecord>) -> Seq<u8> {
    batch.flat_map(record_encoder())
}

/// `record_bytes` as a function value.
pub open spec fn record_encoder() -> spec_fn(EntityRecord) -> Seq<u8> {
    |r: EntityRecord| record_bytes(r)
}

/// The signed integer spelled by the four bytes of `bytes` that start at `at`.
pub open spec fn signed_at(bytes: Seq<u8>, at: int) -> i32 {
    to_signed(be_value(bytes.subrange(at, at + 4)) as u32)
}

/// The triple spelled by the twelve bytes of `bytes` that start at `at`.
pub open spec fn triple_at(bytes: Seq<u8>, at: int) -> (i32, i32, i32) {
    (signed_at(bytes, at), signed_at(bytes, at + 4), signed_at(bytes, at + 8))
}

/// The record spelled by the 28 bytes of `bytes` that start at `at`.
pub open spec fn record_at(bytes: Seq<u8>, at: int) -> EntityRecord {
    EntityRecord {
        id: be_value(bytes.subrange(at, at + 4)) as u32,
        position: triple_at(bytes, at + 4),
        rotation: triple_at(bytes, at + 16),
    }
}

/// What a payload decodes to: nothing unless it is a whole number of
/// records, else the records in order.
pub open spec fn parse_batch(bytes: Seq<u8>) -> Option<Seq<EntityRecord>> {
    if bytes.len() % 28 == 0 {
        Some(Seq::new(bytes.len() / 28, |i: int| record_at(bytes, 28 * i)))
    } else {
        None
    }
}

/// What a handshake payload decodes to: the id, if it is four bytes long.
pub open spec fn parse_id(bytes: Seq<u8>) -> Option<u32> {
    if bytes.len() == 4 {
        Some(be_value(bytes) as u32)
    } else {
        None
    }
}

/// Four bytes spell the integer they were made from.
pub proof fn lemma_word_round_trip(v: u32)
    ensures
        be_bytes(v).len() == 4,
        be_value(be_bytes(v)) == v,
{
}

/// An integer below 2^32 is spelled by exactly the bytes that spell it.
pub proof fn lemma_word_bytes_unique(b: Seq<u8>)
    requires
        b.len() == 4,
    ensures
        0 <= be_value(b) <= u32::MAX,
        be_bytes(be_value(b) as u32) == b,
{
    let b0 = b[0] as int;
    let b1 = b[1] as int;
    let b2 = b[2] as int;
    let b3 = b[3] as int;
    let v = be_value(b);
    lemma_fundamental_div_mod_converse(v, 0x100_0000, b0, b1 * 0x1_0000 + b2 * 0x100 + b3);
    lemma_fundamental_div_mod_converse(v, 0x1_0000, b0 * 0x100 + b1, b2 * 0x100 + b3);
    lemma_fundamental_div_mod_converse(b0 * 0x100 + b1, 0x100, b0, b1);
    lemma_fundamental_div_mod_converse(v, 0x100, b0 * 0x1_0000 + b1 * 0x100 + b2, b3);
    lemma_fundamental_div_mod_converse(b0 * 0x1_0000 + b1 * 0x100 + b2, 0x100, b0 * 0x100 + b1, b2);
    assert(be_bytes(v as u32) =~= b);
}

/// The two's complement mapping loses nothing in either direction.
pub proof fn lemma_sign_round_trip(x: i32, u: u32)
    ensures
        to_signed(to_unsigned(x)) == x,
        to_unsigned(to_signed(u)) == u,
{
}

/// Appends the four bytes of `v` to `out`.
pub fn put_u32(out: &mut Vec<u8>, v: u32)
    ensures
        final(out)@ == old(out)@ + be_bytes(v),
{
    let b0: u8 = (v / 0x100_0000) as u8;
    let b1: u8 = ((v / 0x1_0000) % 0x100) as u8;
    let b2: u8 = ((v / 0x100) % 0x100) as u8;
    let b3: u8 = (v % 0x100) as u8;
    out.push(b0);
    out.push(b1);
    out.push(b2);
    out.push(b3);
    assert(out@ =~= old(out)@ + be_bytes(v));
}

/// The unsigned integer with the bit pattern of `x`.
pub fn unsigned_of(x: i32) -> (u: u32)
    ensures
        u == to_unsigned(x),
{
    if x >= 0 {
        x as u32
    } else {
        let wide: i64 = x as i64 + 0x1_0000_0000;
        wide as u32
    }
}

/// The signed integer with the bit pattern of `u`.
pub fn signed_of(u: u32) -> (x: i32)
    ensures
        x == to_signed(u),
{
    if u < 0x8000_0000 {
        u as i32
    } else {
        let wide: i64 = u as i64 - 0x1_0000_0000;
        wide as i32
    }
}

/// Appends the twelve bytes of a triple to `out`.
pub fn put_triple(out: &mut Vec<u8>, t: (i32, i32, i32))
    ensures
        final(out)@ == old(out)@ + triple_bytes(t),
{
    put_u32(out, unsigned_of(t.0));
    put_u32(out, unsigned_of(t.1));
    put_u32(out, unsigned_of(t.2));
    assert(out@ =~= old(out)@ + triple_bytes(t));
}

/// Appends the 28 bytes of a record to `out`.
pub fn put_record(out: &mut Vec<u8>, r: &EntityRecord)
    ensures
        final(out)@ == old(out)@ + record_bytes(*r),
{
    put_u32(out, r.id);
    put_triple(out, r.position);
    put_triple(out, r.rotation);
    assert(out@ =~= old(out)@ + record_bytes(*r));
}

/// The handshake payload for a newly assigned id.
pub fn encode_id(id: u32) -> (out: Vec<u8>)
    ensures
        out@ == be_bytes(id),
{
    let mut out: Vec<u8> = Vec::new();
    put_u32(&mut out, id);
    assert(out@ =~= be_bytes(id));
    out
}

/// The broadcast payload for a batch of records.
pub fn encode_batch(batch: &Vec<EntityRecord>) -> (out: Vec<u8>)
    ensures
        out@ == batch_bytes(batch@),
{
    let mut out: Vec<u8> = Vec::new();
    let mut i: usize = 0;
    assert(batch@.take(0).flat_map(record_encoder()) =~= Seq::<u8>::empty()) by {
        assert(batch@.take(0) =~= Seq::<EntityRecord>::empty());
        assert(Seq::<EntityRecord>::empty().map_values(record_encoder()) =~= Seq::<Seq<u8>>::empty());
    }
    while i < batch.len()
        invariant
            i <= batch.len(),
            out@ == batch_bytes(batch@.take(i as int)),
        decreases batch.len() - i,
    {
        proof {
            batch@.lemma_flat_map_take_append(record_encoder(), i as int);
        }
        put_record(&mut out, &batch[i]);
        i += 1;
    }
    assert(batch@.take(batch.len() as int) =~= batch@);
    out
}

/// A record's bytes spell the record, wherever they stand in a payload.
pub proof fn lemma_record_round_trip(r: EntityRecord, bytes: Seq<u8>, at: int)
    requires
        0 <= at,
        at + 28 <= bytes.len(),
        bytes.subrange(at, at + 28) == record_bytes(r),
    ensures
        record_at(bytes, at) == r,
{
    let rec = record_bytes(r);
    assert(rec.len() == 28);
    let slot = bytes.subrange(at, at + 28);
    assert(bytes.subrange(at, at + 4) =~= slot.subrange(0, 4));
    assert(bytes.subrange(at + 4, at + 8) =~= slot.subrange(4, 8));
    assert(bytes.subrange(at + 8, at + 12) =~= slot.subrange(8, 12));
    assert(bytes.subrange(at + 12, at + 16) =~= slot.subrange(12, 16));
    assert(bytes.subrange(at + 16, at + 20) =~= slot.subrange(16, 20));
    assert(bytes.subrange(at + 20, at + 24) =~= slot.subrange(20, 24));
    assert(bytes.subrange(at + 24, at + 28) =~= slot.subrange(24, 28));
    assert(rec.subrange(0, 4) =~= be_bytes(r.id));
    assert(rec.subrange(4, 8) =~= be_bytes(to_unsigned(r.position.0)));
    assert(rec.subrange(8, 12) =~= be_bytes(to_unsigned(r.position.1)));
    assert(rec.subrange(12, 16) =~= be_bytes(to_unsigned(r.position.2)));
    assert(rec.subrange(16, 20) =~= be_bytes(to_unsigned(r.rotation.0)));
    assert(rec.subrange(20, 24) =~= be_bytes(to_unsigned(r.rotation.1)));
    assert(rec.subrange(24, 28) =~= be_bytes(to_unsigned(r.rotation.2)));
    lemma_word_round_trip(r.id);
    lemma_word_round_trip(to_unsigned(r.position.0));
    lemma_word_round_trip(to_unsigned(r.position.1));
    lemma_word_round_trip(to_unsigned(r.position.2));
    lemma_word_round_trip(to_unsigned(r.rotation.0));
    lemma_word_round_trip(to_unsigned(r.rotation.1));
    lemma_word_round_trip(to_unsigned(r.rotation.2));
}

/// Any 28 bytes are the bytes of the record they spell.
pub proof fn lemma_record_bytes_unique(bytes: Seq<u8>, at: int)
    requires
        0 <= at,
        at + 28 <= bytes.len(),
    ensures
        record_bytes(record_at(bytes, at)) == bytes.subrange(at, at + 28),
{
    let r = record_at(bytes, at);
    lemma_word_bytes_unique(bytes.subrange(at, at + 4));
    lemma_word_bytes_unique(bytes.subrange(at + 4, at + 8));
    lemma_word_bytes_unique(bytes.subrange(at + 8, at + 12));
    lemma_word_bytes_unique(bytes.subrange(at + 12, at + 16));
    lemma_word_bytes_unique(bytes.subrange(at + 16, at + 20));
    lemma_word_bytes_unique(bytes.subrange(at + 20, at + 24));
    lemma_word_bytes_unique(bytes.subrange(at + 24, at + 28));
    assert(be_bytes(to_unsigned(r.position.0)) == bytes.subrange(at + 4, at + 8));
    assert(be_bytes(to_unsigned(r.position.1)) == bytes.subrange(at + 8, at + 12));
    assert(be_bytes(to_unsigned(r.position.2)) == bytes.subrange(at + 12, at + 16));
    assert(be_bytes(to_unsigned(r.rotation.0)) == bytes.subrange(at + 16, at + 20));
    assert(be_bytes(to_unsigned(r.rotation.1)) == bytes.subrange(at + 20, at + 24));
    assert(be_bytes(to_unsigned(r.rotation.2)) == bytes.subrange(at + 24, at + 28));
    assert(record_bytes(r) =~= bytes.subrange(at, at + 28));
}

/// In a payload every record takes 28 bytes and stands at 28 times its index.
pub proof fn lemma_batch_layout(batch: Seq<EntityRecord>)
    ensures
        batch_bytes(batch).len() == 28 * batch.len(),
        forall|i: int|
            0 <= i < batch.len() ==> #[trigger] batch_bytes(batch).subrange(28 * i, 28 * i + 28)
                == record_bytes(batch[i]),
    decreases batch.len(),
{
    if batch.len() == 0 {
        assert(batch.map_values(record_encoder()) =~= Seq::<Seq<u8>>::empty());
    } else {
        let front = batch.drop_last();
        let last = batch.last();
        lemma_batch_layout(front);
        front.lemma_flat_map_push(record_encoder(), last);
        assert(front.push(last) =~= batch);
        let whole = batch_bytes(batch);
        assert(whole == batch_bytes(front) + record_bytes(last));
        assert(record_bytes(last).len() == 28);
        assert forall|i: int| 0 <= i < batch.len() implies #[trigger] whole.subrange(
            28 * i,
            28 * i + 28,
        ) == record_bytes(batch[i]) by {
            if i < front.len() {
                assert(whole.subrange(28 * i, 28 * i + 28) =~= batch_bytes(front).subrange(
                    28 * i,
                    28 * i + 28,
                ));
            } else {
                assert(whole.subrange(28 * i, 28 * i + 28) =~= record_bytes(last));
            }
        }
    }
}

/// Decoding an encoded batch gives the batch back.
pub proof fn lemma_batch_round_trip(batch: Seq<EntityRecord>)
    ensures
        parse_batch(batch_bytes(batch)) == Some(batch),
{
    let bytes = batch_bytes(batch);
    lemma_batch_layout(batch);
    let decoded = Seq::new(bytes.len() / 28, |i: int| record_at(bytes, 28 * i));
    assert forall|i: int| 0 <= i < batch.len() implies decoded[i] == batch[i] by {
        assert(bytes.subrange(28 * i, 28 * i + 28) == record_bytes(batch[i]));
        lemma_record_round_trip(batch[i], bytes, 28 * i);
    }
    assert(decoded =~= batch);
}

proof fn lemma_same_slot(a: Seq<u8>, b: Seq<u8>, at: int, off: int)
    requires
        0 <= at,
        at + 28 <= a.len(),
        at + 28 <= b.len(),
        0 <= off < 28,
        a.subrange(at, at + 28) == b.subrange(at, at + 28),
    ensures
        a[at + off] == b[at + off],
{
    assert(a[at + off] == a.subrange(at, at + 28)[off]);
    assert(b[at + off] == b.subrange(at, at + 28)[off]);
}

/// A payload that decodes is the encoding of what it decodes to.
pub proof fn lemma_parse_batch_exact(bytes: Seq<u8>)
    requires
        parse_batch(bytes) is Some,
    ensures
        batch_bytes(parse_batch(bytes)->Some_0) == bytes,
{
    let batch = parse_batch(bytes)->Some_0;
    lemma_batch_layout(batch);
    let again = batch_bytes(batch);
    let count = bytes.len() as int / 28;
    assert(batch.len() == count);
    assert(bytes.len() == 28 * count);
    assert(again.len() == bytes.len());
    assert forall|k: int| 0 <= k < bytes.len() implies again[k] == bytes[k] by {
        let i = k / 28;
        let off = k % 28;
        assert(k == 28 * i + off);
        assert(0 <= i < count);
        lemma_record_bytes_unique(bytes, 28 * i);
        assert(again.subrange(28 * i, 28 * i + 28) == record_bytes(batch[i]));
        assert(batch[i] == record_at(bytes, 28 * i));
        lemma_same_slot(again, bytes, 28 * i, off);
    }
    assert(again =~= bytes);
}

/// Decoding an encoded id gives the id back.
pub proof fn lemma_id_round_trip(id: u32)
    ensures
        parse_id(be_bytes(id)) == Some(id),
{
    lemma_word_round_trip(id);
}

/// Reads the integer spelled by the four bytes that start at `at`.
pub fn read_u32(bytes: &[u8], at: usize) -> (v: u32)
    requires
        at + 4 <= bytes.len(),
    ensures
        v == be_value(bytes@.subrange(at as int, at + 4)),
{
    let b0: u32 = bytes[at] as u32;
    let b1: u32 = bytes[at + 1] as u32;
    let b2: u32 = bytes[at + 2] as u32;
    let b3: u32 = bytes[at + 3] as u32;
    b0 * 0x100_0000 + b1 * 0x1_0000 + b2 * 0x100 + b3
}

/// Reads the triple spelled by the twelve bytes that start at `at`.
pub fn read_triple(bytes: &[u8], at: usize) -> (t: (i32, i32, i32))
    requires
        at + 12 <= bytes.len(),
    ensures
        t == triple_at(bytes@, at as int),
{
    let a: i32 = signed_of(read_u32(bytes, at));
    let b: i32 = signed_of(read_u32(bytes, at + 4));
    let c: i32 = signed_of(read_u32(bytes, at + 8));
    (a, b, c)
}

/// Reads the record spelled by the 28 bytes that start at `at`.
pub fn read_record(bytes: &[u8], at: usize) -> (r: EntityRecord)
    requires
        at + 28 <= bytes.len(),
    ensures
        r == record_at(bytes@, at as int),
{
    let id: u32 = read_u32(bytes, at);
    let position = read_triple(bytes, at + 4);
    let rotation = read_triple(bytes, at + 16);
    EntityRecord { id, position, rotation }
}

/// Decodes a handshake payload.
pub fn decode_id(bytes: &[u8]) -> (id: Option<u32>)
    ensures
        id == parse_id(bytes@),
{
    if bytes.len() != 4 {
        return None;
    }
    assert(bytes@.subrange(0, 4) =~= bytes@);
    Some(read_u32(bytes, 0))
}

/// Decodes a broadcast payload. A payload that is not a whole number of
/// records decodes to nothing.
pub fn decode_batch(bytes: &[u8]) -> (batch: Option<Vec<EntityRecord>>)
    ensures
        batch is Some <==> bytes@.len() % 28 == 0,
        batch matches Some(records) ==> parse_batch(bytes@) == Some(records@),
{
    if bytes.len() % 28 != 0 {
        return None;
    }
    let count: usize = bytes.len() / 28;
    let mut records: Vec<EntityRecord> = Vec::new();
    let mut i: usize = 0;
    while i < count
        invariant
            i <= count,
            28 * count == bytes.len(),
            records@ == Seq::new(i as nat, |k: int| record_at(bytes@, 28 * k)),
        decreases count - i,
    {
        let r = read_record(bytes, i * 28);
        records.push(r);
        i += 1;
        assert(records@ =~= Seq::new(i as nat, |k: int| record_at(bytes@, 28 * k)));
    }
    Some(records)
}

} // verus!
