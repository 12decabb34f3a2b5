//! The log writer: appends records, keeps the offsets, and closes the log
//! with its index and footer.
//!
//! The writer performs no I/O. What it produces gathers in an output buffer
//! that the caller drains with [`BbinWriter::take_output`] and appends to the
//! file; `written()` is the file as it stands once the buffer is drained.

use vstd::prelude::*;
use crate::clock::now_millis;
use crate::format::{
    default_label, encode_file_header, encode_footer, encode_index, encode_record_header,
    file_header_bytes, footer_bytes, index_bytes, index_matches, index_offset,
    lemma_file_header_round_trip, lemma_first_record, lemma_records_bytes_push, log_bytes,
    record_bytes, records_bytes, records_wf, FILE_HEADER_LEN, FORMAT_VERSION, MAGIC,
    RECORD_HEADER_LEN,
};
use crate::frame::{decoded, read_frame};
use crate::types::{
    BbinHeader, BbinIndexEntry, FrameHeader, LoggedMessageHeader, RecordView, MAX_PAYLOAD_LEN,
};

verus! {

/// Why an append or a finalize did not take place.
#[derive(Debug, Clone, Copy, PartialEq, Eq)]
pub enum WriteError {
    /// The log is finalized: nothing is appended behind the index.
    Finalized,
    /// The payload is longer than a record header can say.
    PayloadTooLarge,
    /// The log would outgrow what a 64-bit offset can address.
    OffsetOverflow,
    /// The encoder refused a value. With the fixed-width layout of this
    /// format it does not.
    Encode,
}

/// The label that a raw payload is filed under: the label of the message
/// that the codec finds in it, and `MavMessage` where it finds none.
pub open spec fn payload_label(raw_msg_bytes: Seq<u8>) -> Seq<char> {
    match decoded(raw_msg_bytes) {
        Some(found) => found.label,
        None => default_label(),
    }
}

/// Appends records to a log and finalizes it.
pub struct BbinWriter {
    index: Vec<BbinIndexEntry>,
    current_offset: u64,
    start_timestamp: i64,
    finalized: bool,
    pending: Vec<u8>,
    flushed: Ghost<Seq<u8>>,
    records: Ghost<Seq<RecordView>>,
    labels: Ghost<Seq<Seq<char>>>,
}

impl BbinWriter {
    /// The records appended so far, in order.
    pub closed spec fn records(&self) -> Seq<RecordView> {
        self.records@
    }

    /// The labels that the records were appended under, in order.
    pub closed spec fn labels(&self) -> Seq<Seq<char>> {
        self.labels@
    }

    /// The index entries gathered so far, one per record.
    pub closed spec fn index(&self) -> Seq<BbinIndexEntry> {
        self.index@
    }

    /// The running offset: where the next record, or the index, begins.
    pub closed spec fn offset(&self) -> u64 {
        self.current_offset
    }

    /// The start timestamp stamped into the file header.
    pub closed spec fn start_timestamp(&self) -> i64 {
        self.start_timestamp
    }

    /// Whether the index and footer have been written.
    pub closed spec fn finalized(&self) -> bool {
        self.finalized
    }

    /// Bytes produced and not yet taken by the caller.
    pub closed spec fn pending(&self) -> Seq<u8> {
        self.pending@
    }

    /// Bytes that the caller has taken, in the order it took them.
    pub closed spec fn flushed(&self) -> Seq<u8> {
        self.flushed@
    }

    /// Everything produced so far: the file once the buffer is drained.
    pub open spec fn written(&self) -> Seq<u8> {
        self.flushed() + self.pending()
    }

    /// The file header of this log.
    pub open spec fn header(&self) -> BbinHeader {
        BbinHeader {
            magic: MAGIC,
            version: FORMAT_VERSION,
            start_timestamp: self.start_timestamp(),
        }
    }

    /// The writer's invariant: every record is well-formed, the running
    /// offset is where the records end, the index lists the records, and
    /// what was produced is the log of these records.
    pub open spec fn wf(&self) -> bool {
        &&& records_wf(self.records())
        &&& self.offset() == index_offset(self.records())
        &&& index_matches(self.index(), self.records(), self.labels())
        &&& self.written() == log_bytes(
            self.header(),
            self.records(),
            self.index(),
            self.finalized(),
        )
    }

    /// Starts a log whose header carries `start_timestamp`. The header is
    /// the first output.
    pub fn with_start(start_timestamp: i64) -> (out: Result<Self, WriteError>)
        ensures
            out matches Ok(w) && {
                &&& w.wf()
                &&& !w.finalized()
                &&& w.start_timestamp() == start_timestamp
                &&& w.records() == Seq::<RecordView>::empty()
                &&& w.flushed() == Seq::<u8>::empty()
                &&& w.pending() == file_header_bytes(w.header())
                &&& w.offset() == FILE_HEADER_LEN
            },
    {
        let header = BbinHeader { magic: MAGIC, version: FORMAT_VERSION, start_timestamp };
        let pending = match encode_file_header(&header) {
            Ok(bytes) => bytes,
            Err(_) => {
                return Err(WriteError::Encode);
            },
        };
        proof {
            lemma_file_header_round_trip(header, Seq::empty());
        }
        let out = BbinWriter {
            index: Vec::new(),
            current_offset: FILE_HEADER_LEN as u64,
            start_timestamp,
            finalized: false,
            pending,
            flushed: Ghost(Seq::empty()),
            records: Ghost(Seq::empty()),
            labels: Ghost(Seq::empty()),
        };
        proof {
            assert(out.written() =~= file_header_bytes(header));
            assert(records_bytes(Seq::<RecordView>::empty()) =~= Seq::<u8>::empty());
            assert(log_bytes(out.header(), out.records(), out.index(), false)
                =~= file_header_bytes(header));
        }
        Ok(out)
    }

    /// Starts a log whose header carries the current time.
    pub fn new() -> (out: Result<Self, WriteError>)
        ensures
            out matches Ok(w) && {
                &&& w.wf()
                &&& !w.finalized()
                &&& w.records() == Seq::<RecordView>::empty()
                &&& w.flushed() == Seq::<u8>::empty()
                &&& w.pending() == file_header_bytes(w.header())
                &&& w.offset() == FILE_HEADER_LEN
            },
    {
        Self::with_start(now_millis())
    }

    /// The running offset: the number of bytes that the header and the
    /// records take.
    pub fn current_offset(&self) -> (out: u64)
        ensures
            out == self.offset(),
    {
        self.current_offset
    }

    /// Whether the log has been finalized.
    pub fn is_finalized(&self) -> (out: bool)
        ensures
            out == self.finalized(),
    {
        self.finalized
    }

    /// The record that an append of these arguments adds.
    pub open spec fn appended_record(
        timestamp: i64,
        header: FrameHeader,
        raw_msg_bytes: Seq<u8>,
    ) -> RecordView {
        RecordView {
            header: LoggedMessageHeader {
                timestamp,
                sequence: header.sequence,
                system_id: header.system_id,
                component_id: header.component_id,
                msg_len: raw_msg_bytes.len() as u16,
            },
            payload: raw_msg_bytes,
        }
    }

    /// Appends one record under the label `message_type`: a header built
    /// from the arguments, then the raw payload; files it in the index
    /// under the offset it begins at; and advances the running offset past
    /// it. An append to a finalized log, a payload that the header cannot
    /// describe, and a record that would carry the log past the 64-bit
    /// offset range are refused and leave the writer as it was.
    pub fn write_message(
        &mut self,
        timestamp: i64,
        header: FrameHeader,
        raw_msg_bytes: &[u8],
        message_type: &str,
    ) -> (out: Result<(), WriteError>)
        requires
            old(self).wf(),
        ensures
            final(self).wf(),
            final(self).finalized() == old(self).finalized(),
            final(self).start_timestamp() == old(self).start_timestamp(),
            final(self).flushed() == old(self).flushed(),
            out == Err::<(), WriteError>(WriteError::Finalized) <==> old(self).finalized(),
            out == Err::<(), WriteError>(WriteError::PayloadTooLarge) <==> !old(self).finalized()
                && raw_msg_bytes@.len() > MAX_PAYLOAD_LEN,
            out == Err::<(), WriteError>(WriteError::OffsetOverflow) <==> !old(self).finalized()
                && raw_msg_bytes@.len() <= MAX_PAYLOAD_LEN && old(self).offset()
                + RECORD_HEADER_LEN + raw_msg_bytes@.len() > u64::MAX,
            out is Ok <==> !old(self).finalized() && raw_msg_bytes@.len() <= MAX_PAYLOAD_LEN
                && old(self).offset() + RECORD_HEADER_LEN + raw_msg_bytes@.len() <= u64::MAX,
            out is Ok ==> {
                let r = Self::appended_record(timestamp, header, raw_msg_bytes@);
                &&& final(self).records() == old(self).records().push(r)
                &&& final(self).labels() == old(self).labels().push(message_type@)
                &&& final(self).pending() == old(self).pending() + record_bytes(r)
                &&& final(self).offset() == old(self).offset() + RECORD_HEADER_LEN
                    + raw_msg_bytes@.len()
                &&& final(self).index().len() == old(self).index().len() + 1
                &&& final(self).index().last().offset == old(self).offset()
            },
            out is Err ==> {
                &&& final(self).records() == old(self).records()
                &&& final(self).labels() == old(self).labels()
                &&& final(self).pending() == old(self).pending()
                &&& final(self).offset() == old(self).offset()
                &&& final(self).index() == old(self).index()
            },
    {
        if self.finalized {
            return Err(WriteError::Finalized);
        }
        if raw_msg_bytes.len() > MAX_PAYLOAD_LEN {
            return Err(WriteError::PayloadTooLarge);
        }
        let size: u64 = (RECORD_HEADER_LEN + raw_msg_bytes.len()) as u64;
        let next_offset: u64 = match self.current_offset.checked_add(size) {
            Some(next) => next,
            None => {
                return Err(WriteError::OffsetOverflow);
            },
        };
        let logged_header = LoggedMessageHeader::from_mav_header(
            timestamp,
            header,
            raw_msg_bytes.len(),
        );
        let mut header_bytes = match encode_record_header(&logged_header) {
            Ok(bytes) => bytes,
            Err(_) => {
                return Err(WriteError::Encode);
            },
        };
        let mut payload = vstd::slice::slice_to_vec(raw_msg_bytes);
        let ghost r = Self::appended_record(timestamp, header, raw_msg_bytes@);
        let ghost old_records = self.records@;
        let ghost old_index = self.index@;
        let ghost old_labels = self.labels@;
        proof {
            assert(logged_header == r.header);
            lemma_first_record(r, Seq::empty());
            lemma_records_bytes_push(old_records, r);
        }
        self.pending.append(&mut header_bytes);
        self.pending.append(&mut payload);
        self.index.push(
            BbinIndexEntry {
                message_type: message_type.to_owned(),
                offset: self.current_offset,
                timestamp,
            },
        );
        self.current_offset = next_offset;
        self.records = Ghost(old_records.push(r));
        self.labels = Ghost(old_labels.push(message_type@));
        proof {
            let rs = self.records@;
            assert(self.pending@ =~= old(self).pending@ + record_bytes(r));
            assert(self.written() =~= old(self).written() + record_bytes(r));
            assert(log_bytes(self.header(), rs, self.index@, false) =~= log_bytes(
                old(self).header(),
                old_records,
                old_index,
                false,
            ) + record_bytes(r));
            assert forall|i: int| 0 <= i < rs.len() implies (#[trigger] rs[i]).wf() by {
                if i < old_records.len() {
                    assert(rs[i] == old_records[i]);
                }
            }
            assert forall|i: int| 0 <= i < self.index@.len() implies {
                &&& (#[trigger] self.index@[i]).offset == crate::format::record_offset(rs, i)
                &&& self.index@[i].timestamp == rs[i].header.timestamp
                &&& self.index@[i].message_type@ == self.labels@[i]
            } by {
                if i < old_index.len() {
                    assert(self.index@[i] == old_index[i]);
                    assert(rs.take(i) =~= old_records.take(i));
                } else {
                    assert(rs.take(i) =~= old_records);
                }
            }
        }
        Ok(())
    }

    /// Appends one record as [`BbinWriter::write_message`] does, filed
    /// under the label of the message that the payload holds. A payload in
    /// which the codec finds no message is filed under `MavMessage`.
    pub fn write_message_raw(
        &mut self,
        timestamp: i64,
        header: FrameHeader,
        raw_msg_bytes: &[u8],
    ) -> (out: Result<(), WriteError>)
        requires
            old(self).wf(),
        ensures
            final(self).wf(),
            final(self).finalized() == old(self).finalized(),
            final(self).start_timestamp() == old(self).start_timestamp(),
            final(self).flushed() == old(self).flushed(),
            out == Err::<(), WriteError>(WriteError::Finalized) <==> old(self).finalized(),
            out == Err::<(), WriteError>(WriteError::PayloadTooLarge) <==> !old(self).finalized()
                && raw_msg_bytes@.len() > MAX_PAYLOAD_LEN,
            out == Err::<(), WriteError>(WriteError::OffsetOverflow) <==> !old(self).finalized()
                && raw_msg_bytes@.len() <= MAX_PAYLOAD_LEN && old(self).offset()
                + RECORD_HEADER_LEN + raw_msg_bytes@.len() > u64::MAX,
            out is Ok <==> !old(self).finalized() && raw_msg_bytes@.len() <= MAX_PAYLOAD_LEN
                && old(self).offset() + RECORD_HEADER_LEN + raw_msg_bytes@.len() <= u64::MAX,
            out is Ok ==> {
                let r = Self::appended_record(timestamp, header, raw_msg_bytes@);
                &&& final(self).records() == old(self).records().push(r)
                &&& final(self).labels() == old(self).labels().push(
                    payload_label(raw_msg_bytes@),
                )
                &&& final(self).pending() == old(self).pending() + record_bytes(r)
                &&& final(self).offset() == old(self).offset() + RECORD_HEADER_LEN
                    + raw_msg_bytes@.len()
                &&& final(self).index().len() == old(self).index().len() + 1
                &&& final(self).index().last().offset == old(self).offset()
            },
            out is Err ==> {
                &&& final(self).records() == old(self).records()
                &&& final(self).labels() == old(self).labels()
                &&& final(self).pending() == old(self).pending()
                &&& final(self).offset() == old(self).offset()
                &&& final(self).index() == old(self).index()
            },
    {
        match read_frame(raw_msg_bytes) {
            Ok(found) => self.write_message(
                timestamp,
                header,
                raw_msg_bytes,
                found.label.as_str(),
            ),
            Err(_) => self.write_message(timestamp, header, raw_msg_bytes, "MavMessage"),
        }
    }

    /// Writes the index, then the footer that holds the offset at which the
    /// index begins, and marks the log finalized. On a log that is
    /// finalized already nothing is written.
    pub fn save_index(&mut self) -> (out: Result<(), WriteError>)
        requires
            old(self).wf(),
        ensures
            out is Ok,
            final(self).wf(),
            final(self).finalized(),
            final(self).start_timestamp() == old(self).start_timestamp(),
            final(self).flushed() == old(self).flushed(),
            final(self).records() == old(self).records(),
            final(self).labels() == old(self).labels(),
            final(self).index() == old(self).index(),
            final(self).offset() == old(self).offset(),
            final(self).pending() == old(self).pending() + (if old(self).finalized() {
                Seq::<u8>::empty()
            } else {
                index_bytes(old(self).index()) + footer_bytes(old(self).offset())
            }),
    {
        if self.finalized {
            proof {
                assert(self.pending@ + Seq::<u8>::empty() =~= self.pending@);
            }
            return Ok(());
        }
        let mut index_part = match encode_index(&self.index) {
            Ok(bytes) => bytes,
            Err(_) => {
                return Err(WriteError::Encode);
            },
        };
        let mut footer_part = match encode_footer(self.current_offset) {
            Ok(bytes) => bytes,
            Err(_) => {
                return Err(WriteError::Encode);
            },
        };
        self.pending.append(&mut index_part);
        self.pending.append(&mut footer_part);
        self.finalized = true;
        proof {
            assert(self.pending@ =~= old(self).pending@ + (index_bytes(self.index@) + footer_bytes(
                self.current_offset,
            )));
            assert(self.written() =~= old(self).written() + index_bytes(self.index@)
                + footer_bytes(self.current_offset));
            assert(self.written() =~= log_bytes(
                self.header(),
                self.records(),
                self.index(),
                true,
            ));
        }
        Ok(())
    }

    /// Finalizes the log: the index and the footer follow every record
    /// appended before, and nothing is appended after. Finalizing again
    /// changes nothing.
    pub fn finalize(&mut self) -> (out: Result<(), WriteError>)
        requires
            old(self).wf(),
        ensures
            out is Ok,
            final(self).wf(),
            final(self).finalized(),
            final(self).start_timestamp() == old(self).start_timestamp(),
            final(self).flushed() == old(self).flushed(),
            final(self).records() == old(self).records(),
            final(self).labels() == old(self).labels(),
            final(self).index() == old(self).index(),
            final(self).offset() == old(self).offset(),
            final(self).pending() == old(self).pending() + (if old(self).finalized() {
                Seq::<u8>::empty()
            } else {
                index_bytes(old(self).index()) + footer_bytes(old(self).offset())
            }),
    {
        self.save_index()
    }

    /// Hands over the bytes produced since the last call, for the caller
    /// to append to the file.
    pub fn take_output(&mut self) -> (out: Vec<u8>)
        requires
            old(self).wf(),
        ensures
            final(self).wf(),
            out@ == old(self).pending(),
            final(self).pending() == Seq::<u8>::empty(),
            final(self).flushed() == old(self).flushed() + out@,
            final(self).written() == old(self).written(),
            final(self).finalized() == old(self).finalized(),
            final(self).start_timestamp() == old(self).start_timestamp(),
            final(self).records() == old(self).records(),
            final(self).labels() == old(self).labels(),
            final(self).index() == old(self).index(),
            final(self).offset() == old(self).offset(),
    {
        let mut out: Vec<u8> = Vec::new();
        out.append(&mut self.pending);
        self.flushed = Ghost(self.flushed@ + out@);
        proof {
            assert(self.written() =~= old(self).written());
        }
        out
    }
}

} // verus!
