//! What the writer and the reader owe each other.

use vstd::prelude::*;
use vstd::bytes::{lemma_auto_spec_u64_to_from_le_bytes, spec_u64_from_le_bytes};
use crate::bbin_reader::{collected, lemma_collected_concat};
use crate::bbin_writer::BbinWriter;
use crate::format::{
    file_header_bytes, first_record, footer_bytes, has_magic, index_bytes,
    lemma_file_header_round_trip, lemma_first_record, lemma_records_bytes_prefix,
    lemma_records_bytes_take, lemma_round_trip, lemma_truncation_tolerance, parse_records,
    record_bytes, record_offset, records_bytes, records_wf, trailer_bytes, FILE_HEADER_LEN, MAGIC,
    RECORD_HEADER_LEN,
};
use crate::types::{BbinHeader, RecordView};

verus! {

/// Round trip. What a writer has produced opens as a log, and behind its
/// header reads as the records that were appended, in their order, none
/// lost and none twice, followed by whatever the trailer reads as. Where
/// the trailer holds no complete record, and so for every log that is not
/// finalized, the records read back are exactly the records appended.
pub proof fn lemma_written_reads_back(w: BbinWriter)
    requires
        w.wf(),
    ensures
        has_magic(w.written()),
        parse_records(w.written().skip(FILE_HEADER_LEN as int)) == w.records() + parse_records(
            trailer_bytes(w.records(), w.index(), w.finalized()),
        ),
        first_record(trailer_bytes(w.records(), w.index(), w.finalized())) is None
            ==> parse_records(w.written().skip(FILE_HEADER_LEN as int)) == w.records(),
        !w.finalized() ==> parse_records(w.written().skip(FILE_HEADER_LEN as int))
            == w.records(),
{
    let trailer = trailer_bytes(w.records(), w.index(), w.finalized());
    let body = records_bytes(w.records()) + trailer;
    lemma_file_header_round_trip(w.header(), body);
    assert(w.written() =~= file_header_bytes(w.header()) + body);
    assert(w.written().skip(FILE_HEADER_LEN as int) =~= body);
    assert(w.written().subrange(0, 4) =~= MAGIC@);
    lemma_round_trip(w.records(), trailer);
    assert(w.records() + Seq::<RecordView>::empty() =~= w.records());
}

/// Round trip of the messages. What is collected from the log of a writer
/// is what its records yield, in their order, followed by whatever the
/// trailer yields; for a log that is not finalized it is exactly what the
/// records yield.
pub proof fn lemma_written_collects_back(w: BbinWriter, filter: Option<Seq<char>>)
    requires
        w.wf(),
    ensures
        collected(parse_records(w.written().skip(FILE_HEADER_LEN as int)), filter) == collected(
            w.records(),
            filter,
        ) + collected(
            parse_records(trailer_bytes(w.records(), w.index(), w.finalized())),
            filter,
        ),
        !w.finalized() ==> collected(
            parse_records(w.written().skip(FILE_HEADER_LEN as int)),
            filter,
        ) == collected(w.records(), filter),
{
    lemma_written_reads_back(w);
    let behind = parse_records(trailer_bytes(w.records(), w.index(), w.finalized()));
    lemma_collected_concat(w.records(), behind, filter);
    if !w.finalized() {
        assert(w.records() + Seq::<RecordView>::empty() =~= w.records());
    }
}

/// Truncation tolerance. A log that holds a valid header and complete
/// records, and then a record that was cut short, opens and reads as
/// exactly the complete records.
pub proof fn lemma_truncated_log_reads_complete_records(
    header: BbinHeader,
    rs: Seq<RecordView>,
    r: RecordView,
    k: int,
)
    requires
        header.magic == MAGIC,
        records_wf(rs),
        r.wf(),
        0 <= k < record_bytes(r).len(),
    ensures
        ({
            let log = file_header_bytes(header) + records_bytes(rs) + record_bytes(r).take(k);
            &&& has_magic(log)
            &&& parse_records(log.skip(FILE_HEADER_LEN as int)) == rs
        }),
{
    let body = records_bytes(rs) + record_bytes(r).take(k);
    let log = file_header_bytes(header) + records_bytes(rs) + record_bytes(r).take(k);
    lemma_file_header_round_trip(header, body);
    assert(log =~= file_header_bytes(header) + body);
    assert(log.skip(FILE_HEADER_LEN as int) =~= body);
    assert(log.subrange(0, 4) =~= MAGIC@);
    lemma_truncation_tolerance(rs, r, k);
}

/// Finalize ordering. In a finalized log the index and the footer stand
/// behind every record; the footer, the last eight bytes, holds the offset
/// at which the index begins; and the bytes from that offset up to the
/// footer are the index.
pub proof fn lemma_footer_locates_index(w: BbinWriter)
    requires
        w.wf(),
        w.finalized(),
    ensures
        ({
            let log = w.written();
            let end = log.len() as int;
            &&& FILE_HEADER_LEN <= w.offset() <= end - 8
            &&& log.take(w.offset() as int) == file_header_bytes(w.header()) + records_bytes(
                w.records(),
            )
            &&& spec_u64_from_le_bytes(log.subrange(end - 8, end)) == w.offset()
            &&& log.subrange(w.offset() as int, end - 8) == index_bytes(w.index())
        }),
{
    lemma_auto_spec_u64_to_from_le_bytes();
    lemma_file_header_round_trip(w.header(), Seq::empty());
    let log = w.written();
    let end = log.len() as int;
    let body = file_header_bytes(w.header()) + records_bytes(w.records());
    assert(log =~= body + index_bytes(w.index()) + footer_bytes(w.offset()));
    assert(log.take(w.offset() as int) =~= body);
    assert(log.subrange(end - 8, end) =~= footer_bytes(w.offset()));
    assert(log.subrange(w.offset() as int, end - 8) =~= index_bytes(w.index()));
}

/// Offset bookkeeping. Every index entry holds the offset at which its
/// record begins in the log: the bytes from there are the record's. The
/// offsets grow from entry to entry, and the first is the header's length.
pub proof fn lemma_index_locates_records(w: BbinWriter, i: int)
    requires
        w.wf(),
        0 <= i < w.records().len(),
    ensures
        ({
            let log = w.written();
            let at = w.index()[i].offset as int;
            let r = w.records()[i];
            &&& at == record_offset(w.records(), i)
            &&& at + record_bytes(r).len() <= w.offset()
            &&& log.subrange(at, at + record_bytes(r).len()) == record_bytes(r)
            &&& first_record(log.skip(at)) == Some(r)
            &&& i == 0 ==> at == FILE_HEADER_LEN
            &&& i > 0 ==> w.index()[i - 1].offset + RECORD_HEADER_LEN + w.records()[i
                - 1].payload.len() == at
        }),
{
    let rs = w.records();
    let r = rs[i];
    let log = w.written();
    let at = record_offset(rs, i);
    let trailer = trailer_bytes(rs, w.index(), w.finalized());
    lemma_file_header_round_trip(w.header(), Seq::empty());
    lemma_records_bytes_take(rs, i);
    lemma_records_bytes_prefix(rs, i + 1);
    lemma_first_record(r, Seq::empty());
    let upto = records_bytes(rs.take(i));
    let with = records_bytes(rs.take(i + 1));
    assert(with =~= upto + record_bytes(r));
    assert(log =~= file_header_bytes(w.header()) + records_bytes(rs) + trailer);
    assert(log.subrange(at, at + record_bytes(r).len()) =~= records_bytes(rs).take(
        with.len() as int,
    ).subrange(upto.len() as int, with.len() as int));
    assert(with.subrange(upto.len() as int, with.len() as int) =~= record_bytes(r));
    let tail = log.skip(at + record_bytes(r).len());
    assert(log.skip(at) =~= record_bytes(r) + tail);
    lemma_first_record(r, tail);
    if i == 0 {
        assert(rs.take(0) =~= Seq::<RecordView>::empty());
        assert(records_bytes(Seq::<RecordView>::empty()) =~= Seq::<u8>::empty());
    } else {
        lemma_records_bytes_take(rs, i - 1);
        lemma_first_record(rs[i - 1], Seq::empty());
    }
}

} // verus!
