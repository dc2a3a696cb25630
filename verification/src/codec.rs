//! The binary window-file layout.
//!
//! A window file is a 16-byte header holding `range_start` and
//! `range_end`, each an unsigned 64-bit little-endian integer, followed
//! by zero or more 16-byte records, each holding `prime` and
//! `next_value` in the same form. There is no count field and no
//! terminator: the stream simply ends, and any trailing fragment of a
//! record makes the file malformed.

use vstd::arithmetic::div_mod::lemma_div_multiples_vanish;
use vstd::arithmetic::div_mod::lemma_mod_multiples_basic;
use vstd::bytes::lemma_auto_spec_u64_to_from_le_bytes;
use vstd::bytes::spec_u64_from_le_bytes;
use vstd::bytes::spec_u64_to_le_bytes;
use vstd::bytes::u64_from_le_bytes;
use vstd::bytes::u64_to_le_bytes;
use vstd::prelude::*;
use vstd::slice::slice_subrange;

verus! {

/// One decoded sieve record: a prime and the value following it.
#[derive(Clone, Copy, Debug, PartialEq, Eq, Structural)]
pub struct PrimeRecord {
    pub prime: u64,
    pub next_value: u64,
}

/// The header is complete when at least its 16 bytes are present.
pub open spec fn header_complete(data: Seq<u8>) -> bool {
    data.len() >= 16
}

/// After a complete header, the rest must split into whole 16-byte
/// records; a trailing fragment is a malformed file, never ignored.
pub open spec fn body_complete(data: Seq<u8>) -> bool {
    (data.len() - 16) % 16 == 0
}

/// A well-formed window file: complete header, whole records.
pub open spec fn well_formed(data: Seq<u8>) -> bool {
    header_complete(data) && body_complete(data)
}

/// The header's `range_start` field.
pub open spec fn range_start_of(data: Seq<u8>) -> u64 {
    spec_u64_from_le_bytes(data.subrange(0, 8))
}

/// The header's `range_end` field.
pub open spec fn range_end_of(data: Seq<u8>) -> u64 {
    spec_u64_from_le_bytes(data.subrange(8, 16))
}

/// How many whole records follow the header.
pub open spec fn record_count_of(data: Seq<u8>) -> nat {
    (((data.len() - 16) as int) / 16) as nat
}

/// The record decoded from bytes `16 + 16*i .. 32 + 16*i`.
pub open spec fn record_at(data: Seq<u8>, i: int) -> PrimeRecord {
    PrimeRecord {
        prime: spec_u64_from_le_bytes(data.subrange(16 + 16 * i, 24 + 16 * i)),
        next_value: spec_u64_from_le_bytes(data.subrange(24 + 16 * i, 32 + 16 * i)),
    }
}

/// All records of the file, in file order.
pub open spec fn records_of(data: Seq<u8>) -> Seq<PrimeRecord> {
    Seq::new(record_count_of(data), |i: int| record_at(data, i))
}

/// The 16-byte encoding of one record.
pub open spec fn encode_record(r: PrimeRecord) -> Seq<u8> {
    spec_u64_to_le_bytes(r.prime) + spec_u64_to_le_bytes(r.next_value)
}

/// The encoding of a record sequence, in order.
pub open spec fn encode_records(records: Seq<PrimeRecord>) -> Seq<u8>
    decreases records.len(),
{
    if records.len() == 0 {
        Seq::empty()
    } else {
        encode_record(records[0]) + encode_records(records.drop_first())
    }
}

/// The encoding of a whole window file.
pub open spec fn encode_window(range_start: u64, range_end: u64, records: Seq<PrimeRecord>) -> Seq<
    u8,
> {
    spec_u64_to_le_bytes(range_start) + spec_u64_to_le_bytes(range_end) + encode_records(records)
}

/// An encoded record sequence is 16 bytes per record.
pub proof fn lemma_encode_records_len(records: Seq<PrimeRecord>)
    ensures
        encode_records(records).len() == 16 * records.len(),
    decreases records.len(),
{
    lemma_auto_spec_u64_to_from_le_bytes();
    if records.len() > 0 {
        lemma_encode_records_len(records.drop_first());
    }
}

/// Within an encoded record sequence, record `i` occupies bytes
/// `16*i .. 16*i + 16`, its two fields 8 bytes each.
pub proof fn lemma_encode_records_index(records: Seq<PrimeRecord>, i: int)
    requires
        0 <= i < records.len(),
    ensures
        encode_records(records).subrange(16 * i, 16 * i + 8) == spec_u64_to_le_bytes(
            records[i].prime,
        ),
        encode_records(records).subrange(16 * i + 8, 16 * i + 16) == spec_u64_to_le_bytes(
            records[i].next_value,
        ),
    decreases i,
{
    lemma_auto_spec_u64_to_from_le_bytes();
    lemma_encode_records_len(records);
    lemma_encode_records_len(records.drop_first());
    if i == 0 {
        assert(encode_records(records).subrange(0, 8) =~= spec_u64_to_le_bytes(records[0].prime));
        assert(encode_records(records).subrange(8, 16) =~= spec_u64_to_le_bytes(
            records[0].next_value,
        ));
    } else {
        lemma_encode_records_index(records.drop_first(), i - 1);
        assert(encode_records(records).subrange(16 * i, 16 * i + 8) =~= encode_records(
            records.drop_first(),
        ).subrange(16 * (i - 1), 16 * (i - 1) + 8));
        assert(encode_records(records).subrange(16 * i + 8, 16 * i + 16) =~= encode_records(
            records.drop_first(),
        ).subrange(16 * (i - 1) + 8, 16 * (i - 1) + 16));
    }
}

/// Encoding then decoding gives back the header fields and every
/// record: the binary layout loses nothing.
pub proof fn lemma_encode_window_decodes(range_start: u64, range_end: u64, records: Seq<
    PrimeRecord,
>)
    ensures
        well_formed(encode_window(range_start, range_end, records)),
        encode_window(range_start, range_end, records).len() == 16 + 16 * records.len(),
        range_start_of(encode_window(range_start, range_end, records)) == range_start,
        range_end_of(encode_window(range_start, range_end, records)) == range_end,
        record_count_of(encode_window(range_start, range_end, records)) == records.len(),
        records_of(encode_window(range_start, range_end, records)) == records,
{
    let data = encode_window(range_start, range_end, records);
    lemma_auto_spec_u64_to_from_le_bytes();
    lemma_encode_records_len(records);
    assert(data.len() == 16 + 16 * records.len());
    lemma_mod_multiples_basic(records.len() as int, 16);
    lemma_div_multiples_vanish(records.len() as int, 16);
    assert(record_count_of(data) == records.len());
    assert(data.subrange(0, 8) =~= spec_u64_to_le_bytes(range_start));
    assert(data.subrange(8, 16) =~= spec_u64_to_le_bytes(range_end));
    assert forall|i: int| 0 <= i < records.len() implies record_at(data, i) == records[i] by {
        lemma_encode_records_index(records, i);
        assert(data.subrange(16 + 16 * i, 24 + 16 * i) =~= encode_records(records).subrange(
            16 * i,
            16 * i + 8,
        ));
        assert(data.subrange(24 + 16 * i, 32 + 16 * i) =~= encode_records(records).subrange(
            16 * i + 8,
            16 * i + 16,
        ));
    };
    assert(records_of(data) =~= records);
}

/// Appending one record extends the encoding by that record's bytes.
pub proof fn lemma_encode_records_push(records: Seq<PrimeRecord>, r: PrimeRecord)
    ensures
        encode_records(records.push(r)) == encode_records(records) + encode_record(r),
    decreases records.len(),
{
    if records.len() == 0 {
        assert(records.push(r).drop_first() =~= Seq::<PrimeRecord>::empty());
        assert(records.push(r)[0] == r);
        assert(encode_records(Seq::<PrimeRecord>::empty()) == Seq::<u8>::empty());
        assert(encode_records(records.push(r)) == encode_record(r) + Seq::<u8>::empty());
        assert(encode_records(records.push(r)) =~= encode_records(records) + encode_record(r));
    } else {
        lemma_encode_records_push(records.drop_first(), r);
        assert(records.push(r).drop_first() =~= records.drop_first().push(r));
        assert(records.push(r)[0] == records[0]);
        assert(encode_records(records.push(r)) == encode_record(records[0]) + (encode_records(
            records.drop_first(),
        ) + encode_record(r)));
        assert(encode_records(records.push(r)) =~= encode_records(records) + encode_record(r));
    }
}

/// Builds the byte encoding of a window file from its header fields
/// and records.
pub fn encode_window_bytes(range_start: u64, range_end: u64, records: &Vec<PrimeRecord>) -> (out:
    Vec<u8>)
    ensures
        out@ == encode_window(range_start, range_end, records@),
{
    let mut out = u64_to_le_bytes(range_start);
    let mut end_bytes = u64_to_le_bytes(range_end);
    out.append(&mut end_bytes);
    let mut i: usize = 0;
    proof {
        assert(records@.take(0) =~= Seq::<PrimeRecord>::empty());
        assert(out@ =~= encode_window(range_start, range_end, records@.take(0)));
    }
    while i < records.len()
        invariant
            0 <= i <= records@.len(),
            out@ == encode_window(range_start, range_end, records@.take(i as int)),
        decreases records@.len() - i,
    {
        let r = records[i];
        let mut prime_bytes = u64_to_le_bytes(r.prime);
        let mut next_bytes = u64_to_le_bytes(r.next_value);
        out.append(&mut prime_bytes);
        out.append(&mut next_bytes);
        proof {
            lemma_encode_records_push(records@.take(i as int), r);
            assert(records@.take(i as int).push(r) =~= records@.take(i + 1));
            assert(out@ =~= encode_window(range_start, range_end, records@.take(i + 1)));
        }
        i = i + 1;
    }
    proof {
        assert(records@.take(records@.len() as int) =~= records@);
    }
    out
}

/// Reads the two header fields from a complete header.
pub fn decode_header(data: &[u8]) -> (r: (u64, u64))
    requires
        header_complete(data@),
    ensures
        r.0 == range_start_of(data@),
        r.1 == range_end_of(data@),
{
    let start_bytes = slice_subrange(data, 0, 8);
    let end_bytes = slice_subrange(data, 8, 16);
    (u64_from_le_bytes(start_bytes), u64_from_le_bytes(end_bytes))
}

/// Reads record `i` of a well-formed file.
pub fn decode_record(data: &[u8], i: usize) -> (r: PrimeRecord)
    requires
        well_formed(data@),
        i < record_count_of(data@),
        16 + 16 * i + 16 <= usize::MAX,
    ensures
        r == record_at(data@, i as int),
{
    proof {
        lemma_record_offset_in_bounds(data@, i as int);
    }
    let base = 16 + 16 * i;
    let prime_bytes = slice_subrange(data, base, base + 8);
    let next_bytes = slice_subrange(data, base + 8, base + 16);
    PrimeRecord {
        prime: u64_from_le_bytes(prime_bytes),
        next_value: u64_from_le_bytes(next_bytes),
    }
}

/// Each record's byte range lies inside the file.
pub proof fn lemma_record_offset_in_bounds(data: Seq<u8>, i: int)
    requires
        well_formed(data),
        0 <= i < record_count_of(data),
    ensures
        16 + 16 * i + 16 <= data.len(),
{
    let body = (data.len() - 16) as int;
    vstd::arithmetic::div_mod::lemma_fundamental_div_mod(body, 16);
    assert(16 * (i + 1) <= 16 * (body / 16)) by (nonlinear_arith)
        requires
            i + 1 <= body / 16,
    ;
}

} // verus!
