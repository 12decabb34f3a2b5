//! The log reader: checks the file header, then yields the records one
//! after the other until the bytes end or stop making a whole record.
//!
//! The reader never looks at the index or the footer, so a log that was cut
//! off at any point reads up to its last complete record.

use vstd::prelude::*;
use crate::filter::{filter_view, passes, passes_filter};
use crate::format::{
    decode_file_header, decode_record_header, first_record, has_magic, lemma_records_len_push,
    parse_records, records_bytes, FILE_HEADER_LEN, MAGIC, RECORD_HEADER_LEN,
};
use crate::frame::{decoded, found_view, read_frame, DecodedFrame, FrameView};
use crate::types::{LoggedMessage, LoggedMessageHeader, Record, RecordView};

verus! {

/// Why a log could not be opened.
#[derive(Debug, Clone, Copy, PartialEq, Eq)]
pub enum FormatError {
    /// The bytes end before the file header does.
    MalformedHeader,
    /// The file header does not open with the magic.
    BadMagic,
}

/// What one step of a sequential read yields.
#[derive(Debug, Clone, PartialEq, Eq)]
pub enum ReadStep {
    /// The next complete record.
    Record(Record),
    /// No byte is left: the expected end of a log.
    EndOfStream,
    /// Bytes are left, but not a whole record: the log was cut short or is
    /// corrupt from here on.
    DecodeError,
}

/// The values of a run of records.
pub open spec fn record_views(records: Seq<Record>) -> Seq<RecordView> {
    records.map_values(|r: Record| r@)
}

/// What a message read from a record shows: its timestamp and its label.
pub ghost struct MessageView {
    pub timestamp: i64,
    pub label: Seq<char>,
}

/// What a collected message shows.
pub open spec fn message_view(message: LoggedMessage) -> MessageView {
    MessageView { timestamp: message.timestamp, label: message.message_type@ }
}

/// What collected messages show, in order.
pub open spec fn message_views(messages: Seq<LoggedMessage>) -> Seq<MessageView> {
    messages.map_values(|message: LoggedMessage| message_view(message))
}

/// The message that a record of this timestamp yields under a filter,
/// given what the codec found in its payload: where it found a frame whose
/// label passes the filter, the label under the timestamp; otherwise none.
pub open spec fn message_of(
    timestamp: i64,
    found: Option<FrameView>,
    filter: Option<Seq<char>>,
) -> Option<MessageView> {
    match found {
        Some(frame) => if passes(frame.label, filter) {
            Some(MessageView { timestamp, label: frame.label })
        } else {
            None
        },
        None => None,
    }
}

/// The message that a record yields under a filter: what it yields given
/// what the codec finds in its payload.
pub open spec fn record_message(record: RecordView, filter: Option<Seq<char>>) -> Option<
    MessageView,
> {
    message_of(record.header.timestamp, decoded(record.payload), filter)
}

/// The messages that a run of records yields under a filter, in the order
/// of the records.
pub open spec fn collected(records: Seq<RecordView>, filter: Option<Seq<char>>) -> Seq<
    MessageView,
>
    decreases records.len(),
{
    if records.len() == 0 {
        Seq::empty()
    } else {
        let before = collected(records.drop_last(), filter);
        match record_message(records.last(), filter) {
            Some(message) => before.push(message),
            None => before,
        }
    }
}

/// The messages of two runs of records, one after the other, are the
/// messages of the first and then those of the second.
pub proof fn lemma_collected_concat(
    a: Seq<RecordView>,
    b: Seq<RecordView>,
    filter: Option<Seq<char>>,
)
    ensures
        collected(a + b, filter) == collected(a, filter) + collected(b, filter),
    decreases b.len(),
{
    if b.len() == 0 {
        assert(a + b =~= a);
        assert(collected(a, filter) + collected(b, filter) =~= collected(a, filter));
    } else {
        lemma_collected_concat(a, b.drop_last(), filter);
        assert((a + b).drop_last() =~= a + b.drop_last());
        assert((a + b).last() == b.last());
        assert(collected(a + b, filter) =~= collected(a, filter) + collected(b, filter));
    }
}

/// A sequential, forward-only reader over the bytes of a log.
pub struct BbinReader {
    bytes: Vec<u8>,
    pos: usize,
}

impl BbinReader {
    /// The bytes of the log.
    pub closed spec fn bytes(&self) -> Seq<u8> {
        self.bytes@
    }

    /// How many bytes have been read.
    pub closed spec fn position(&self) -> int {
        self.pos as int
    }

    /// The reader stands behind the file header and within the bytes.
    pub open spec fn wf(&self) -> bool {
        FILE_HEADER_LEN <= self.position() <= self.bytes().len() <= usize::MAX
    }

    /// The bytes not yet read.
    pub open spec fn remaining(&self) -> Seq<u8> {
        self.bytes().skip(self.position())
    }

    /// Opens a log: decodes the file header and checks its magic, and
    /// leaves the reader right behind the header. The version and
    /// everything behind the header play no part.
    pub fn new(bytes: Vec<u8>) -> (out: Result<Self, FormatError>)
        ensures
            match out {
                Ok(reader) => {
                    &&& has_magic(bytes@)
                    &&& reader.wf()
                    &&& reader.bytes() == bytes@
                    &&& reader.position() == FILE_HEADER_LEN
                },
                Err(FormatError::MalformedHeader) => bytes@.len() < FILE_HEADER_LEN,
                Err(FormatError::BadMagic) => bytes@.len() >= FILE_HEADER_LEN && !has_magic(
                    bytes@,
                ),
            },
    {
        let header = match decode_file_header(bytes.as_slice()) {
            Ok(header) => header,
            Err(_) => {
                return Err(FormatError::MalformedHeader);
            },
        };
        let magic_ok = header.magic[0] == MAGIC[0] && header.magic[1] == MAGIC[1]
            && header.magic[2] == MAGIC[2] && header.magic[3] == MAGIC[3];
        proof {
            if magic_ok {
                assert(header.magic@ =~= MAGIC@);
            } else {
                assert(header.magic@ != MAGIC@);
            }
            assert(bytes@.len() == bytes.len());
        }
        if !magic_ok {
            return Err(FormatError::BadMagic);
        }
        Ok(BbinReader { bytes, pos: FILE_HEADER_LEN })
    }

    /// How many bytes have been read.
    pub fn offset(&self) -> (out: usize)
        ensures
            out == self.position(),
    {
        self.pos
    }

    /// Reads the next record. With no byte left this is the end of the
    /// stream; with bytes left that do not hold a whole record (a partial
    /// header, or a payload shorter than its header says) it is a decode
    /// error. Either way the reader stays where it is, so that every later
    /// call gives the same answer.
    pub fn next_record(&mut self) -> (out: ReadStep)
        requires
            old(self).wf(),
        ensures
            final(self).wf(),
            final(self).bytes() == old(self).bytes(),
            match out {
                ReadStep::Record(record) => {
                    &&& first_record(old(self).remaining()) == Some(record@)
                    &&& final(self).position() == old(self).position() + RECORD_HEADER_LEN
                        + record@.payload.len()
                },
                ReadStep::EndOfStream => {
                    &&& old(self).remaining().len() == 0
                    &&& final(self).position() == old(self).position()
                },
                ReadStep::DecodeError => {
                    &&& old(self).remaining().len() > 0
                    &&& first_record(old(self).remaining()) is None
                    &&& final(self).position() == old(self).position()
                },
            },
    {
        let len = self.bytes.len();
        if self.pos == len {
            return ReadStep::EndOfStream;
        }
        let rest = vstd::slice::slice_subrange(self.bytes.as_slice(), self.pos, len);
        assert(rest@ =~= self.remaining());
        let header = match decode_record_header(rest) {
            Ok(header) => header,
            Err(_) => {
                return ReadStep::DecodeError;
            },
        };
        let msg_len = header.msg_len as usize;
        if rest.len() - RECORD_HEADER_LEN < msg_len {
            return ReadStep::DecodeError;
        }
        let payload = vstd::slice::slice_to_vec(
            vstd::slice::slice_subrange(rest, RECORD_HEADER_LEN, RECORD_HEADER_LEN + msg_len),
        );
        self.pos = self.pos + RECORD_HEADER_LEN + msg_len;
        ReadStep::Record(Record { header, payload })
    }

    /// Reads every complete record that is left, in order, and leaves the
    /// reader behind the last of them.
    pub fn read_records(&mut self) -> (out: Vec<Record>)
        requires
            old(self).wf(),
        ensures
            final(self).wf(),
            final(self).bytes() == old(self).bytes(),
            record_views(out@) == parse_records(old(self).remaining()),
            final(self).position() == old(self).position() + records_bytes(
                parse_records(old(self).remaining()),
            ).len(),
            first_record(final(self).remaining()) is None,
    {
        let mut out: Vec<Record> = Vec::new();
        let ghost start = self.remaining();
        proof {
            assert(record_views(out@) =~= Seq::<RecordView>::empty());
            assert(Seq::<RecordView>::empty() + parse_records(start) =~= parse_records(start));
            assert(records_bytes(Seq::<RecordView>::empty()) =~= Seq::<u8>::empty());
        }
        loop
            invariant
                self.wf(),
                self.bytes() == old(self).bytes(),
                parse_records(start) == record_views(out@) + parse_records(self.remaining()),
                self.position() == old(self).position() + records_bytes(record_views(out@)).len(),
            ensures
                self.wf(),
                self.bytes() == old(self).bytes(),
                parse_records(start) == record_views(out@),
                self.position() == old(self).position() + records_bytes(record_views(out@)).len(),
                first_record(self.remaining()) is None,
            decreases self.bytes().len() - self.position(),
        {
            let ghost before = self.remaining();
            let ghost seen = record_views(out@);
            match self.next_record() {
                ReadStep::Record(record) => {
                    proof {
                        lemma_records_len_push(seen, record@, before);
                        assert(self.remaining() =~= before.skip(
                            RECORD_HEADER_LEN + record@.payload.len(),
                        ));
                        assert(record_views(out@.push(record)) =~= seen.push(record@));
                        assert(seen.push(record@) + parse_records(self.remaining()) =~= seen + (
                        seq![record@] + parse_records(self.remaining())));
                    }
                    out.push(record);
                },
                _ => {
                    proof {
                        assert(seen + Seq::<RecordView>::empty() =~= seen);
                    }
                    break;
                },
            }
        }
        out
    }

    /// Reads every record that is left and decodes its payload. A payload
    /// in which the codec finds no message is skipped, and so is a message
    /// whose label does not pass the filter; the others are collected in
    /// the order of their records, each under the timestamp of its record
    /// and counted as disarmed.
    pub fn read_and_collect(&mut self, filter: Option<&str>) -> (out: Vec<LoggedMessage>)
        requires
            old(self).wf(),
        ensures
            final(self).wf(),
            final(self).bytes() == old(self).bytes(),
            final(self).position() == old(self).position() + records_bytes(
                parse_records(old(self).remaining()),
            ).len(),
            first_record(final(self).remaining()) is None,
            message_views(out@) == collected(
                parse_records(old(self).remaining()),
                filter_view(filter),
            ),
            forall|k: int| 0 <= k < out@.len() ==> !(#[trigger] out@[k]).is_armed,
    {
        let mut out: Vec<LoggedMessage> = Vec::new();
        let ghost start = self.remaining();
        let ghost mut seen: Seq<RecordView> = Seq::empty();
        proof {
            assert(seen + parse_records(start) =~= parse_records(start));
            assert(message_views(out@) =~= collected(seen, filter_view(filter)));
            assert(records_bytes(seen) =~= Seq::<u8>::empty());
        }
        loop
            invariant
                self.wf(),
                self.bytes() == old(self).bytes(),
                parse_records(start) == seen + parse_records(self.remaining()),
                self.position() == old(self).position() + records_bytes(seen).len(),
                message_views(out@) == collected(seen, filter_view(filter)),
                forall|k: int| 0 <= k < out@.len() ==> !(#[trigger] out@[k]).is_armed,
            ensures
                self.wf(),
                self.bytes() == old(self).bytes(),
                first_record(self.remaining()) is None,
                parse_records(start) == seen,
                self.position() == old(self).position() + records_bytes(seen).len(),
                message_views(out@) == collected(seen, filter_view(filter)),
                forall|k: int| 0 <= k < out@.len() ==> !(#[trigger] out@[k]).is_armed,
            decreases self.bytes().len() - self.position(),
        {
            let ghost before = self.remaining();
            let record = match self.next_record() {
                ReadStep::Record(record) => record,
                _ => {
                    proof {
                        assert(seen + Seq::<RecordView>::empty() =~= seen);
                    }
                    break ;
                },
            };
            let ghost earlier = seen;
            let ghost shown = message_views(out@);
            proof {
                lemma_records_len_push(seen, record@, before);
                assert(self.remaining() =~= before.skip(RECORD_HEADER_LEN + record@.payload.len()));
                assert(seen.push(record@) + parse_records(self.remaining()) =~= seen + (
                seq![record@] + parse_records(self.remaining())));
                seen = seen.push(record@);
                assert(seen.drop_last() =~= earlier);
            }
            match Self::decode_record(&record.header, record.payload.as_slice(), filter) {
                Some(message) => {
                    out.push(message);
                    proof {
                        assert(message_views(out@) =~= shown.push(message_view(message)));
                    }
                },
                None => {},
            }
        }
        out
    }

    /// Decodes the payload of one record: the payload goes to the codec,
    /// and what it finds is collected as [`BbinReader::collect_frame`]
    /// says.
    pub fn decode_record(
        header: &LoggedMessageHeader,
        payload: &[u8],
        filter: Option<&str>,
    ) -> (out: Option<LoggedMessage>)
        ensures
            out is Some <==> record_message(
                RecordView { header: *header, payload: payload@ },
                filter_view(filter),
            ) is Some,
            out matches Some(message) ==> {
                &&& Some(message_view(message)) == record_message(
                    RecordView { header: *header, payload: payload@ },
                    filter_view(filter),
                )
                &&& !message.is_armed
            },
    {
        let found = match read_frame(payload) {
            Ok(frame) => Some(frame),
            Err(_) => None,
        };
        Self::collect_frame(header, found, filter)
    }

    /// Collects the message of one record, given what the codec found in
    /// its payload. Where it found a message whose label passes the
    /// filter, the result is that message under the record's timestamp,
    /// counted as disarmed; otherwise there is none.
    pub fn collect_frame(
        header: &LoggedMessageHeader,
        found: Option<DecodedFrame>,
        filter: Option<&str>,
    ) -> (out: Option<LoggedMessage>)
        ensures
            out is Some <==> message_of(header.timestamp, found_view(found), filter_view(filter))
                is Some,
            out matches Some(message) ==> {
                &&& Some(message_view(message)) == message_of(
                    header.timestamp,
                    found_view(found),
                    filter_view(filter),
                )
                &&& !message.is_armed
                &&& message.message == found->Some_0.message
            },
    {
        let frame = match found {
            Some(frame) => frame,
            None => {
                return None;
            },
        };
        if !passes_filter(frame.label.as_str(), filter) {
            return None;
        }
        Some(
            LoggedMessage {
                timestamp: header.timestamp,
                message: frame.message,
                is_armed: false,
                message_type: frame.label,
            },
        )
    }

    /// Reads every record that is left, as [`BbinReader::read_and_collect`]
    /// does, and gives the messages to show: those that pass the filter
    /// where `show` is set, and none where it is not. Neither the filter
    /// nor `show` changes what is read: the reader ends behind the last
    /// complete record.
    pub fn read_messages(&mut self, filter: Option<&str>, show: bool) -> (out: Vec<LoggedMessage>)
        requires
            old(self).wf(),
        ensures
            final(self).wf(),
            final(self).bytes() == old(self).bytes(),
            final(self).position() == old(self).position() + records_bytes(
                parse_records(old(self).remaining()),
            ).len(),
            first_record(final(self).remaining()) is None,
            show ==> message_views(out@) == collected(
                parse_records(old(self).remaining()),
                filter_view(filter),
            ),
            !show ==> out@.len() == 0,
            forall|k: int| 0 <= k < out@.len() ==> !(#[trigger] out@[k]).is_armed,
    {
        let messages = self.read_and_collect(filter);
        if show {
            messages
        } else {
            Vec::new()
        }
    }
}

} // verus!
