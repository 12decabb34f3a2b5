//! The byte grammar of the log container:
//! `header . record* . index . footer`.
//!
//! Every integer is fixed-width and little-endian; a label is its UTF-8 bytes
//! behind a 64-bit length. The bytes themselves come from `bincode`; this
//! module states their layout and proves that the grammar is self-delimiting.

use vstd::prelude::*;
use vstd::bytes::{
    lemma_auto_spec_u16_to_from_le_bytes, lemma_auto_spec_u64_to_from_le_bytes,
    spec_u16_from_le_bytes, spec_u16_to_le_bytes, spec_u64_from_le_bytes, spec_u64_to_le_bytes,
};
use vstd::utf8::encode_utf8;
use crate::types::{BbinHeader, BbinIndexEntry, LoggedMessageHeader, RecordView};

verus! {

/// `bincode::ErrorKind`, the encoder's error, carried through unread.
#[verifier::external_type_specification]
#[verifier::external_body]
pub struct ExBincodeErrorKind(bincode::ErrorKind);

/// Bytes taken by the file header.
pub const FILE_HEADER_LEN: usize = 14;

/// Bytes taken by a record header.
pub const RECORD_HEADER_LEN: usize = 13;

/// The format version that the writer stamps, 1.0 as 10.
pub const FORMAT_VERSION: u16 = 10;

/// The magic that opens a log file, `BBIN`.
pub const MAGIC: [u8; 4] = [0x42, 0x42, 0x49, 0x4E];

/// A signed 64-bit integer as eight little-endian bytes, two's complement.
pub open spec fn i64_to_le_bytes(x: i64) -> Seq<u8> {
    spec_u64_to_le_bytes(x as u64)
}

/// The signed 64-bit integer that eight little-endian bytes stand for.
pub open spec fn i64_from_le_bytes(s: Seq<u8>) -> i64 {
    spec_u64_from_le_bytes(s) as i64
}

/// Layout of the file header: magic, version, start timestamp.
pub open spec fn file_header_bytes(h: BbinHeader) -> Seq<u8> {
    h.magic@ + spec_u16_to_le_bytes(h.version) + i64_to_le_bytes(h.start_timestamp)
}

/// `h` is what the first fourteen bytes of `s` decode to.
pub open spec fn is_file_header_of(h: BbinHeader, s: Seq<u8>) -> bool {
    &&& s.len() >= FILE_HEADER_LEN
    &&& h.magic@ == s.subrange(0, 4)
    &&& h.version == spec_u16_from_le_bytes(s.subrange(4, 6))
    &&& h.start_timestamp == i64_from_le_bytes(s.subrange(6, 14))
}

/// Layout of a record header: timestamp, sequence, system, component,
/// payload length.
pub open spec fn record_header_bytes(h: LoggedMessageHeader) -> Seq<u8> {
    i64_to_le_bytes(h.timestamp) + seq![h.sequence, h.system_id, h.component_id]
        + spec_u16_to_le_bytes(h.msg_len)
}

/// The record header that the first thirteen bytes of `s` decode to.
pub open spec fn parse_record_header(s: Seq<u8>) -> LoggedMessageHeader {
    LoggedMessageHeader {
        timestamp: i64_from_le_bytes(s.subrange(0, 8)),
        sequence: s[8],
        system_id: s[9],
        component_id: s[10],
        msg_len: spec_u16_from_le_bytes(s.subrange(11, 13)),
    }
}

/// Layout of one record: its header, then its payload.
pub open spec fn record_bytes(r: RecordView) -> Seq<u8> {
    record_header_bytes(r.header) + r.payload
}

/// Layout of a run of records, one after the other.
pub open spec fn records_bytes(rs: Seq<RecordView>) -> Seq<u8>
    decreases rs.len(),
{
    if rs.len() == 0 {
        Seq::empty()
    } else {
        records_bytes(rs.drop_last()) + record_bytes(rs.last())
    }
}

/// Every record of the run carries as many payload bytes as its header says.
pub open spec fn records_wf(rs: Seq<RecordView>) -> bool {
    forall|i: int| 0 <= i < rs.len() ==> (#[trigger] rs[i]).wf()
}

/// The record that `s` begins with, if `s` holds all of it.
pub open spec fn first_record(s: Seq<u8>) -> Option<RecordView> {
    if s.len() < RECORD_HEADER_LEN {
        None
    } else {
        let header = parse_record_header(s);
        if s.len() - RECORD_HEADER_LEN < header.msg_len {
            None
        } else {
            Some(
                RecordView {
                    header,
                    payload: s.subrange(
                        RECORD_HEADER_LEN as int,
                        RECORD_HEADER_LEN + header.msg_len,
                    ),
                },
            )
        }
    }
}

/// The complete records that a sequential read of `s` yields: it stops at
/// the end of `s` or at the first record that `s` does not hold in full.
pub open spec fn parse_records(s: Seq<u8>) -> Seq<RecordView>
    decreases s.len(),
{
    match first_record(s) {
        None => Seq::empty(),
        Some(r) => seq![r] + parse_records(s.skip(RECORD_HEADER_LEN + r.payload.len())),
    }
}

/// Layout of one index entry: the label behind its length, the offset, the
/// timestamp.
pub open spec fn index_entry_bytes(e: BbinIndexEntry) -> Seq<u8> {
    spec_u64_to_le_bytes(encode_utf8(e.message_type@).len() as u64) + encode_utf8(
        e.message_type@,
    ) + spec_u64_to_le_bytes(e.offset) + i64_to_le_bytes(e.timestamp)
}

/// Layout of a run of index entries, one after the other.
pub open spec fn index_entries_bytes(es: Seq<BbinIndexEntry>) -> Seq<u8>
    decreases es.len(),
{
    if es.len() == 0 {
        Seq::empty()
    } else {
        index_entries_bytes(es.drop_last()) + index_entry_bytes(es.last())
    }
}

/// Layout of the index: the number of entries, then the entries.
pub open spec fn index_bytes(es: Seq<BbinIndexEntry>) -> Seq<u8> {
    spec_u64_to_le_bytes(es.len() as u64) + index_entries_bytes(es)
}

/// Layout of the footer: the offset at which the index begins.
pub open spec fn footer_bytes(index_offset: u64) -> Seq<u8> {
    spec_u64_to_le_bytes(index_offset)
}

/// The offset at which record `i` of the run begins in the file.
pub open spec fn record_offset(rs: Seq<RecordView>, i: int) -> int {
    FILE_HEADER_LEN + records_bytes(rs.take(i)).len()
}

/// The offset at which the records end and an index begins.
pub open spec fn index_offset(rs: Seq<RecordView>) -> int {
    FILE_HEADER_LEN + records_bytes(rs).len()
}

/// The label that a record is filed under where its payload holds no
/// message to take a label from.
pub open spec fn default_label() -> Seq<char> {
    "MavMessage"@
}

/// The index lists the records: one entry each, in order, with the label
/// that the record was appended under, the offset at which the record
/// begins and the record's timestamp.
pub open spec fn index_matches(
    index: Seq<BbinIndexEntry>,
    rs: Seq<RecordView>,
    labels: Seq<Seq<char>>,
) -> bool {
    &&& index.len() == rs.len()
    &&& labels.len() == rs.len()
    &&& forall|i: int|
        0 <= i < index.len() ==> {
            &&& (#[trigger] index[i]).offset == record_offset(rs, i)
            &&& index[i].timestamp == rs[i].header.timestamp
            &&& index[i].message_type@ == labels[i]
        }
}

/// Whether `s` opens with a whole file header that bears the magic.
pub open spec fn has_magic(s: Seq<u8>) -> bool {
    s.len() >= FILE_HEADER_LEN && s.subrange(0, 4) == MAGIC@
}

/// What follows the records of a log: nothing until it is finalized, then
/// the index and the footer that locates it.
pub open spec fn trailer_bytes(
    rs: Seq<RecordView>,
    index: Seq<BbinIndexEntry>,
    finalized: bool,
) -> Seq<u8> {
    if finalized {
        index_bytes(index) + footer_bytes(index_offset(rs) as u64)
    } else {
        Seq::empty()
    }
}

/// The bytes of a log: the header, the records, the trailer.
pub open spec fn log_bytes(
    header: BbinHeader,
    rs: Seq<RecordView>,
    index: Seq<BbinIndexEntry>,
    finalized: bool,
) -> Seq<u8> {
    file_header_bytes(header) + records_bytes(rs) + trailer_bytes(rs, index, finalized)
}

/// Encodes the file header with `bincode::serialize`, applied to the tuple
/// of its fields. Trusted: the call succeeds (the default configuration has
/// no size limit and the sink is a vector) and yields the fields in order,
/// the magic as four plain bytes and the integers fixed-width little-endian.
#[verifier::external_body]
pub(crate) fn encode_file_header(h: &BbinHeader) -> (out: Result<Vec<u8>, bincode::Error>)
    ensures
        out is Ok,
        out->Ok_0@ == file_header_bytes(*h),
{
    bincode::serialize(&(h.magic, h.version, h.start_timestamp))
}

/// Decodes a file header with `bincode::deserialize`, as the tuple of its
/// fields. Trusted: the call fails when fewer than fourteen bytes are given,
/// and otherwise reads the first fourteen and ignores the rest.
#[verifier::external_body]
pub(crate) fn decode_file_header(bytes: &[u8]) -> (out: Result<BbinHeader, bincode::Error>)
    ensures
        bytes@.len() < FILE_HEADER_LEN ==> out is Err,
        bytes@.len() >= FILE_HEADER_LEN ==> out is Ok,
        out is Ok ==> is_file_header_of(out->Ok_0, bytes@),
{
    let (magic, version, start_timestamp) = bincode::deserialize::<([u8; 4], u16, i64)>(bytes)?;
    Ok(BbinHeader { magic, version, start_timestamp })
}

/// Encodes a record header with `bincode::serialize`, applied to the tuple
/// of its fields. Trusted: the call succeeds and yields the five fields in
/// order, fixed-width little-endian, thirteen bytes in all.
#[verifier::external_body]
pub(crate) fn encode_record_header(h: &LoggedMessageHeader) -> (out: Result<
    Vec<u8>,
    bincode::Error,
>)
    ensures
        out is Ok,
        out->Ok_0@ == record_header_bytes(*h),
{
    bincode::serialize(&(h.timestamp, h.sequence, h.system_id, h.component_id, h.msg_len))
}

/// Decodes a record header with `bincode::deserialize`, as the tuple of its
/// fields. Trusted: the call fails when fewer than thirteen bytes are given,
/// and otherwise reads the first thirteen and ignores the rest.
#[verifier::external_body]
pub(crate) fn decode_record_header(bytes: &[u8]) -> (out: Result<
    LoggedMessageHeader,
    bincode::Error,
>)
    ensures
        bytes@.len() < RECORD_HEADER_LEN ==> out is Err,
        bytes@.len() >= RECORD_HEADER_LEN ==> out is Ok,
        out is Ok ==> out->Ok_0 == parse_record_header(bytes@),
{
    let (timestamp, sequence, system_id, component_id, msg_len) = bincode::deserialize::<
        (i64, u8, u8, u8, u16),
    >(bytes)?;
    Ok(LoggedMessageHeader { timestamp, sequence, system_id, component_id, msg_len })
}

/// Encodes the index with `bincode::serialize`, applied to the entries as
/// tuples of their fields. Trusted: the call succeeds and yields the number
/// of entries as a 64-bit length, then each entry as its label (UTF-8 bytes
/// behind a 64-bit length), its offset and its timestamp.
#[verifier::external_body]
pub(crate) fn encode_index(index: &Vec<BbinIndexEntry>) -> (out: Result<Vec<u8>, bincode::Error>)
    ensures
        out is Ok,
        out->Ok_0@ == index_bytes(index@),
{
    let rows: Vec<(&str, u64, i64)> = index.iter().map(
        |e| (e.message_type.as_str(), e.offset, e.timestamp),
    ).collect();
    bincode::serialize(&rows)
}

/// Encodes the footer with `bincode::serialize`. Trusted: the call succeeds
/// and yields the offset as eight little-endian bytes.
#[verifier::external_body]
pub(crate) fn encode_footer(index_offset: u64) -> (out: Result<Vec<u8>, bincode::Error>)
    ensures
        out is Ok,
        out->Ok_0@ == footer_bytes(index_offset),
{
    bincode::serialize(&index_offset)
}

/// A signed integer survives its eight bytes.
pub proof fn lemma_i64_le_bytes(x: i64)
    ensures
        i64_to_le_bytes(x).len() == 8,
        i64_from_le_bytes(i64_to_le_bytes(x)) == x,
{
    lemma_auto_spec_u64_to_from_le_bytes();
    assert((x as u64) as i64 == x) by (bit_vector);
}

/// A record header takes thirteen bytes, and decodes to itself whatever
/// follows it.
pub proof fn lemma_record_header_round_trip(h: LoggedMessageHeader, tail: Seq<u8>)
    ensures
        record_header_bytes(h).len() == RECORD_HEADER_LEN,
        parse_record_header(record_header_bytes(h) + tail) == h,
{
    lemma_auto_spec_u16_to_from_le_bytes();
    lemma_i64_le_bytes(h.timestamp);
    let s = record_header_bytes(h) + tail;
    assert(s.subrange(0, 8) =~= i64_to_le_bytes(h.timestamp));
    assert(s.subrange(11, 13) =~= spec_u16_to_le_bytes(h.msg_len));
}

/// A file header takes fourteen bytes, and decodes to itself whatever
/// follows it.
pub proof fn lemma_file_header_round_trip(h: BbinHeader, tail: Seq<u8>)
    ensures
        file_header_bytes(h).len() == FILE_HEADER_LEN,
        is_file_header_of(h, file_header_bytes(h) + tail),
{
    lemma_auto_spec_u16_to_from_le_bytes();
    lemma_i64_le_bytes(h.start_timestamp);
    let s = file_header_bytes(h) + tail;
    assert(s.subrange(0, 4) =~= h.magic@);
    assert(s.subrange(4, 6) =~= spec_u16_to_le_bytes(h.version));
    assert(s.subrange(6, 14) =~= i64_to_le_bytes(h.start_timestamp));
}

/// Appending a record to a run appends its bytes.
pub proof fn lemma_records_bytes_push(rs: Seq<RecordView>, r: RecordView)
    ensures
        records_bytes(rs.push(r)) == records_bytes(rs) + record_bytes(r),
{
    assert(rs.push(r).drop_last() =~= rs);
}

/// Putting a record in front of a run puts its bytes in front.
pub proof fn lemma_records_bytes_prepend(r: RecordView, rs: Seq<RecordView>)
    ensures
        records_bytes(seq![r] + rs) == record_bytes(r) + records_bytes(rs),
    decreases rs.len(),
{
    if rs.len() == 0 {
        assert(seq![r] + rs =~= seq![r]);
        assert(seq![r].drop_last() =~= Seq::<RecordView>::empty());
        assert(records_bytes(Seq::<RecordView>::empty()) =~= Seq::<u8>::empty());
        assert(records_bytes(seq![r]) =~= record_bytes(r));
        assert(record_bytes(r) + records_bytes(rs) =~= record_bytes(r));
    } else {
        lemma_records_bytes_prepend(r, rs.drop_last());
        assert((seq![r] + rs).drop_last() =~= seq![r] + rs.drop_last());
        assert((seq![r] + rs).last() == rs.last());
        assert(records_bytes(seq![r] + rs) =~= record_bytes(r) + records_bytes(rs));
    }
}

/// A well-formed record is the first record of its own bytes, whatever
/// follows them, and what follows is what is left to read.
pub proof fn lemma_first_record(r: RecordView, tail: Seq<u8>)
    requires
        r.wf(),
    ensures
        record_bytes(r).len() == RECORD_HEADER_LEN + r.payload.len(),
        first_record(record_bytes(r) + tail) == Some(r),
        (record_bytes(r) + tail).skip(RECORD_HEADER_LEN + r.payload.len()) == tail,
{
    let s = record_bytes(r) + tail;
    lemma_record_header_round_trip(r.header, r.payload + tail);
    assert(s =~= record_header_bytes(r.header) + (r.payload + tail));
    assert(s.subrange(RECORD_HEADER_LEN as int, RECORD_HEADER_LEN + r.header.msg_len)
        =~= r.payload);
    assert(s.skip(RECORD_HEADER_LEN + r.payload.len()) =~= tail);
}

/// Reading back what was written: a run of well-formed records, laid out
/// one after the other and followed by any bytes, reads as those records,
/// in order and each exactly once, and then as whatever the bytes behind
/// them read as.
pub proof fn lemma_round_trip(rs: Seq<RecordView>, tail: Seq<u8>)
    requires
        records_wf(rs),
    ensures
        parse_records(records_bytes(rs) + tail) == rs + parse_records(tail),
    decreases rs.len(),
{
    if rs.len() == 0 {
        assert(records_bytes(rs) + tail =~= tail);
        assert(rs + parse_records(tail) =~= parse_records(tail));
    } else {
        let r = rs.first();
        let rest = rs.drop_first();
        assert(rs =~= seq![r] + rest);
        lemma_records_bytes_prepend(r, rest);
        let s = records_bytes(rs) + tail;
        assert(s =~= record_bytes(r) + (records_bytes(rest) + tail));
        lemma_first_record(r, records_bytes(rest) + tail);
        assert forall|i: int| 0 <= i < rest.len() implies (#[trigger] rest[i]).wf() by {
            assert(rest[i] == rs[i + 1]);
        }
        lemma_round_trip(rest, tail);
        assert(parse_records(s) =~= seq![r] + (rest + parse_records(tail)));
        assert(seq![r] + (rest + parse_records(tail)) =~= rs + parse_records(tail));
    }
}

/// A record that was read takes its thirteen header bytes and its payload:
/// a run grows by that much where the record joins it.
pub proof fn lemma_records_len_push(rs: Seq<RecordView>, r: RecordView, s: Seq<u8>)
    requires
        first_record(s) == Some(r),
    ensures
        r.wf(),
        records_bytes(rs.push(r)).len() == records_bytes(rs).len() + RECORD_HEADER_LEN
            + r.payload.len(),
{
    lemma_first_record(r, Seq::empty());
    lemma_records_bytes_push(rs, r);
}

/// The bytes of a run of records grow with the run: the first `i + 1`
/// records take what the first `i` take and the bytes of record `i`.
pub proof fn lemma_records_bytes_take(rs: Seq<RecordView>, i: int)
    requires
        0 <= i < rs.len(),
    ensures
        records_bytes(rs.take(i + 1)) == records_bytes(rs.take(i)) + record_bytes(rs[i]),
{
    assert(rs.take(i + 1) =~= rs.take(i).push(rs[i]));
    lemma_records_bytes_push(rs.take(i), rs[i]);
}

/// The bytes of a run of records open with the bytes of each shorter run.
pub proof fn lemma_records_bytes_prefix(rs: Seq<RecordView>, i: int)
    requires
        0 <= i <= rs.len(),
    ensures
        records_bytes(rs.take(i)).len() <= records_bytes(rs).len(),
        records_bytes(rs).take(records_bytes(rs.take(i)).len() as int) == records_bytes(
            rs.take(i),
        ),
    decreases rs.len() - i,
{
    if i == rs.len() {
        assert(rs.take(i) =~= rs);
        assert(records_bytes(rs).take(records_bytes(rs).len() as int) =~= records_bytes(rs));
    } else {
        lemma_records_bytes_prefix(rs, i + 1);
        lemma_records_bytes_take(rs, i);
        let short = records_bytes(rs.take(i));
        let long = records_bytes(rs.take(i + 1));
        assert(records_bytes(rs).take(short.len() as int) =~= records_bytes(rs).take(
            long.len() as int,
        ).take(short.len() as int));
        assert(long.take(short.len() as int) =~= short);
    }
}

/// A record that is cut short reads as nothing: no proper prefix of a
/// well-formed record's bytes holds a complete record.
pub proof fn lemma_partial_record(r: RecordView, k: int)
    requires
        r.wf(),
        0 <= k < record_bytes(r).len(),
    ensures
        parse_records(record_bytes(r).take(k)) == Seq::<RecordView>::empty(),
{
    let full = record_bytes(r);
    let part = full.take(k);
    lemma_record_header_round_trip(r.header, r.payload);
    if k >= RECORD_HEADER_LEN {
        let cut = r.payload.take(k - RECORD_HEADER_LEN);
        assert(part =~= record_header_bytes(r.header) + cut);
        lemma_record_header_round_trip(r.header, cut);
    }
}

/// Truncation tolerance: complete records followed by a record that is cut
/// short read as exactly the complete ones.
pub proof fn lemma_truncation_tolerance(rs: Seq<RecordView>, r: RecordView, k: int)
    requires
        records_wf(rs),
        r.wf(),
        0 <= k < record_bytes(r).len(),
    ensures
        parse_records(records_bytes(rs) + record_bytes(r).take(k)) == rs,
{
    lemma_round_trip(rs, record_bytes(r).take(k));
    lemma_partial_record(r, k);
    assert(rs + Seq::<RecordView>::empty() =~= rs);
}

} // verus!
