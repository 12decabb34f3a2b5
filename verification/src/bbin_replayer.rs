//! The replay engine: walks the records of a log, re-frames what passes the
//! filter, and says how long to wait before each send.
//!
//! The engine owns no transport and does not sleep. For every record it
//! says what became of it; for a send it gives the frame and the delay that
//! the capture showed since the send before. The caller divides that delay
//! by its speed, waits, and sends.

use vstd::prelude::*;
use crate::bbin_reader::{BbinReader, FormatError, ReadStep};
use crate::filter::{filter_view, passes, passes_filter};
use crate::format::{
    first_record, has_magic, lemma_records_len_push, parse_records, records_bytes,
    FILE_HEADER_LEN, RECORD_HEADER_LEN,
};
use crate::frame::{
    decoded, encode_frame, found_view, frame_carries, read_frame, DecodedFrame, FrameView,
};
use crate::types::{LoggedMessageHeader, RecordView};

verus! {

/// One send of a replay.
#[derive(Debug, Clone, PartialEq, Eq)]
pub struct ReplayStep {
    /// The header of the record that is replayed.
    pub header: LoggedMessageHeader,
    /// Milliseconds that passed in the capture since the send before, to be
    /// scaled by the speed; zero where nothing is to be waited for.
    pub delay_ms: u64,
    /// The label of the message.
    pub label: String,
    /// The frame to send.
    pub frame: Vec<u8>,
}

/// What became of one record in a replay.
#[derive(Debug, Clone, PartialEq, Eq)]
pub enum ReplayOutcome {
    /// The codec found no message in the payload: the record is skipped.
    Rejected,
    /// The label of the message does not pass the filter: the record is
    /// skipped.
    Filtered { label: String },
    /// The message is sent.
    Send(ReplayStep),
}

/// The delay before a send: with real-time pacing and a send before it,
/// the time by which its record is later than that send's record, and zero
/// where it is not later.
pub open spec fn pacing_delay(prev: Option<i64>, timestamp: i64, realtime: bool) -> int {
    match prev {
        Some(before) => if realtime && timestamp > before {
            timestamp - before
        } else {
            0
        },
        None => 0,
    }
}

/// The timestamp of the last send among these outcomes, if there is one.
pub open spec fn last_sent(outcomes: Seq<ReplayOutcome>) -> Option<i64>
    decreases outcomes.len(),
{
    if outcomes.len() == 0 {
        None
    } else {
        match outcomes.last() {
            ReplayOutcome::Send(step) => Some(step.header.timestamp),
            _ => last_sent(outcomes.drop_last()),
        }
    }
}

/// Whether `outcome` is what the replay makes of a record with this
/// header, given what the codec found in its payload and the timestamp
/// `prev` of the send before. Where the codec found no frame, the record is
/// rejected. A message whose label does not pass the filter is filtered.
/// Any other is sent: the send bears the record's header, the label, a
/// frame under the record's identifiers and the delay since `prev`.
pub open spec fn outcome_of(
    outcome: ReplayOutcome,
    header: LoggedMessageHeader,
    found: Option<FrameView>,
    prev: Option<i64>,
    filter: Option<Seq<char>>,
    realtime: bool,
) -> bool {
    match found {
        None => outcome is Rejected,
        Some(frame) => if passes(frame.label, filter) {
            &&& outcome matches ReplayOutcome::Send(step)
            &&& step.header == header
            &&& step.label@ == frame.label
            &&& frame_carries(step.frame@, header.ids())
            &&& step.delay_ms == pacing_delay(prev, header.timestamp, realtime)
        } else {
            &&& outcome matches ReplayOutcome::Filtered { label }
            &&& label@ == frame.label
        },
    }
}

/// Whether `outcome` is what the replay owes `record`, where `prev` is the
/// timestamp of the send before it: what it makes of the record's header
/// and of what the codec finds in the record's payload.
pub open spec fn outcome_fits(
    outcome: ReplayOutcome,
    record: RecordView,
    prev: Option<i64>,
    filter: Option<Seq<char>>,
    realtime: bool,
) -> bool {
    outcome_of(outcome, record.header, decoded(record.payload), prev, filter, realtime)
}

/// Computes the delay before a send.
pub fn delay_before(prev: Option<i64>, timestamp: i64, realtime: bool) -> (out: u64)
    ensures
        out == pacing_delay(prev, timestamp, realtime),
{
    match prev {
        Some(before) => {
            if realtime && timestamp > before {
                let delta: i128 = timestamp as i128 - before as i128;
                delta as u64
            } else {
                0
            }
        },
        None => 0,
    }
}

/// Pacing runs over the sends alone. Where outcome `j` is a send and none
/// of the outcomes between `j` and `i` is, the send before outcome `i` is
/// the one at `j`: the records skipped in between take no part.
pub proof fn lemma_pacing_skips_what_is_not_sent(outcomes: Seq<ReplayOutcome>, j: int, i: int)
    requires
        0 <= j < i <= outcomes.len(),
        outcomes[j] is Send,
        forall|k: int| j < k < i ==> !(#[trigger] outcomes[k] is Send),
    ensures
        last_sent(outcomes.take(i)) == Some(outcomes[j]->Send_0.header.timestamp),
    decreases i - j,
{
    let upto = outcomes.take(i);
    assert(upto.last() == outcomes[i - 1]);
    assert(upto.drop_last() =~= outcomes.take(i - 1));
    if i - 1 > j {
        lemma_pacing_skips_what_is_not_sent(outcomes, j, i - 1);
    }
}

/// Where none of the outcomes before `i` is a send, there is no send
/// before outcome `i`, and so no delay.
pub proof fn lemma_first_send_has_no_delay(outcomes: Seq<ReplayOutcome>, i: int)
    requires
        0 <= i <= outcomes.len(),
        forall|k: int| 0 <= k < i ==> !(#[trigger] outcomes[k] is Send),
    ensures
        last_sent(outcomes.take(i)) is None,
    decreases i,
{
    let upto = outcomes.take(i);
    if i > 0 {
        assert(upto.last() == outcomes[i - 1]);
        assert(upto.drop_last() =~= outcomes.take(i - 1));
        lemma_first_send_has_no_delay(outcomes, i - 1);
    }
}

/// Whether `outcomes` are what a replay owes `records`, one each and in
/// order, each with the send before it: what
/// [`BbinReplayer::replay_messages`] returns of the records it read.
pub open spec fn replay_fits(
    outcomes: Seq<ReplayOutcome>,
    records: Seq<RecordView>,
    filter: Option<Seq<char>>,
    realtime: bool,
) -> bool {
    &&& outcomes.len() == records.len()
    &&& forall|i: int|
        0 <= i < outcomes.len() ==> outcome_fits(
            #[trigger] outcomes[i],
            records[i],
            last_sent(outcomes.take(i)),
            filter,
            realtime,
        )
}

/// The delay before a send is the gap between the sends. Where record `j`
/// and record `i` behind it are sent and no record in between is, the
/// delay before send `i` is the time by which record `i` is later than
/// record `j`, or nothing where it is not later or the replay is not paced:
/// the timestamps of the records skipped in between play no part.
pub proof fn lemma_delay_is_gap_between_sends(
    outcomes: Seq<ReplayOutcome>,
    records: Seq<RecordView>,
    filter: Option<Seq<char>>,
    realtime: bool,
    j: int,
    i: int,
)
    requires
        replay_fits(outcomes, records, filter, realtime),
        0 <= j < i < outcomes.len(),
        outcomes[j] is Send,
        outcomes[i] is Send,
        forall|k: int| j < k < i ==> !(#[trigger] outcomes[k] is Send),
    ensures
        outcomes[i]->Send_0.delay_ms == pacing_delay(
            Some(records[j].header.timestamp),
            records[i].header.timestamp,
            realtime,
        ),
{
    lemma_pacing_skips_what_is_not_sent(outcomes, j, i);
    assert(outcome_fits(outcomes[j], records[j], last_sent(outcomes.take(j)), filter, realtime));
    assert(outcome_fits(outcomes[i], records[i], last_sent(outcomes.take(i)), filter, realtime));
}

/// The first send is not delayed: where record `i` is sent and no record
/// before it is, there is no delay before send `i`.
pub proof fn lemma_first_send_is_not_delayed(
    outcomes: Seq<ReplayOutcome>,
    records: Seq<RecordView>,
    filter: Option<Seq<char>>,
    realtime: bool,
    i: int,
)
    requires
        replay_fits(outcomes, records, filter, realtime),
        0 <= i < outcomes.len(),
        outcomes[i] is Send,
        forall|k: int| 0 <= k < i ==> !(#[trigger] outcomes[k] is Send),
    ensures
        outcomes[i]->Send_0.delay_ms == 0,
{
    lemma_first_send_has_no_delay(outcomes, i);
    assert(outcome_fits(outcomes[i], records[i], last_sent(outcomes.take(i)), filter, realtime));
}

/// Only what passes the filter is sent, and all of it: a record is sent
/// exactly where the codec finds a message in its payload and the label of
/// that message passes the filter.
pub proof fn lemma_sent_is_what_passes(
    outcomes: Seq<ReplayOutcome>,
    records: Seq<RecordView>,
    filter: Option<Seq<char>>,
    realtime: bool,
    i: int,
)
    requires
        replay_fits(outcomes, records, filter, realtime),
        0 <= i < outcomes.len(),
    ensures
        outcomes[i] is Send <==> (decoded(records[i].payload) matches Some(found) && passes(
            found.label,
            filter,
        )),
{
    assert(outcome_fits(outcomes[i], records[i], last_sent(outcomes.take(i)), filter, realtime));
}

/// Replays the records of a log.
pub struct BbinReplayer {
    reader: BbinReader,
}

impl BbinReplayer {
    /// The bytes of the log.
    pub closed spec fn bytes(&self) -> Seq<u8> {
        self.reader.bytes()
    }

    /// How many bytes have been replayed or skipped.
    pub closed spec fn position(&self) -> int {
        self.reader.position()
    }

    /// The bytes of the log not yet replayed.
    pub open spec fn remaining(&self) -> Seq<u8> {
        self.bytes().skip(self.position())
    }

    /// The replayer stands behind the file header and within the bytes.
    pub open spec fn wf(&self) -> bool {
        FILE_HEADER_LEN <= self.position() <= self.bytes().len() <= usize::MAX
    }

    /// Opens a log for replay, as the reader opens it.
    pub fn new(bytes: Vec<u8>) -> (out: Result<Self, FormatError>)
        ensures
            match out {
                Ok(replayer) => {
                    &&& has_magic(bytes@)
                    &&& replayer.wf()
                    &&& replayer.bytes() == bytes@
                    &&& replayer.position() == FILE_HEADER_LEN
                },
                Err(FormatError::MalformedHeader) => bytes@.len() < FILE_HEADER_LEN,
                Err(FormatError::BadMagic) => bytes@.len() >= FILE_HEADER_LEN && !has_magic(
                    bytes@,
                ),
            },
    {
        match BbinReader::new(bytes) {
            Ok(reader) => Ok(BbinReplayer { reader }),
            Err(e) => Err(e),
        }
    }

    /// How many bytes have been replayed or skipped.
    pub fn offset(&self) -> (out: usize)
        ensures
            out == self.position(),
    {
        self.reader.offset()
    }

    /// Replays what is left of the log and says, record by record, what
    /// became of it. Every record is decoded; one that the codec rejects,
    /// or whose label does not pass the filter, is skipped. Each of the
    /// others becomes a send: the message framed anew under the record's
    /// identifiers, with the delay since the send before it. Skipped
    /// records take no part in the pacing. The end of the log and a record
    /// cut short both end the replay, behind the last complete record.
    pub fn replay_messages(&mut self, filter: Option<&str>, realtime: bool) -> (out: Vec<
        ReplayOutcome,
    >)
        requires
            old(self).wf(),
        ensures
            final(self).wf(),
            final(self).bytes() == old(self).bytes(),
            final(self).position() == old(self).position() + records_bytes(
                parse_records(old(self).remaining()),
            ).len(),
            first_record(final(self).remaining()) is None,
            replay_fits(
                out@,
                parse_records(old(self).remaining()),
                filter_view(filter),
                realtime,
            ),
    {
        let mut out: Vec<ReplayOutcome> = Vec::new();
        let mut prev_time: Option<i64> = None;
        let ghost start = self.reader.remaining();
        let ghost mut seen: Seq<RecordView> = Seq::empty();
        proof {
            assert(seen + parse_records(start) =~= parse_records(start));
            assert(records_bytes(seen) =~= Seq::<u8>::empty());
        }
        loop
            invariant
                self.reader.wf(),
                self.reader.bytes() == old(self).reader.bytes(),
                start == old(self).reader.remaining(),
                parse_records(start) == seen + parse_records(self.reader.remaining()),
                self.reader.position() == old(self).reader.position() + records_bytes(seen).len(),
                out@.len() == seen.len(),
                prev_time == last_sent(out@),
                forall|i: int|
                    0 <= i < out@.len() ==> outcome_fits(
                        #[trigger] out@[i],
                        seen[i],
                        last_sent(out@.take(i)),
                        filter_view(filter),
                        realtime,
                    ),
            ensures
                self.reader.wf(),
                self.reader.bytes() == old(self).reader.bytes(),
                first_record(self.reader.remaining()) is None,
                parse_records(start) == seen,
                self.reader.position() == old(self).reader.position() + records_bytes(seen).len(),
                out@.len() == seen.len(),
                forall|i: int|
                    0 <= i < out@.len() ==> outcome_fits(
                        #[trigger] out@[i],
                        seen[i],
                        last_sent(out@.take(i)),
                        filter_view(filter),
                        realtime,
                    ),
            decreases self.reader.bytes().len() - self.reader.position(),
        {
            let ghost before = self.reader.remaining();
            let record = match self.reader.next_record() {
                ReadStep::Record(record) => record,
                _ => {
                    proof {
                        assert(seen + Seq::<RecordView>::empty() =~= seen);
                    }
                    break ;
                },
            };
            let outcome = Self::replay_record(
                &record.header,
                record.payload.as_slice(),
                prev_time,
                filter,
                realtime,
            );
            let ghost earlier = out@;
            proof {
                lemma_records_len_push(seen, record@, before);
                assert(self.reader.remaining() =~= before.skip(
                    RECORD_HEADER_LEN + record@.payload.len(),
                ));
                assert(seen.push(record@) + parse_records(self.reader.remaining()) =~= seen + (
                seq![record@] + parse_records(self.reader.remaining())));
                seen = seen.push(record@);
            }
            match &outcome {
                ReplayOutcome::Send(step) => {
                    prev_time = Some(step.header.timestamp);
                },
                _ => {},
            }
            out.push(outcome);
            proof {
                assert(out@.drop_last() =~= earlier);
                assert forall|i: int| 0 <= i < out@.len() implies outcome_fits(
                    #[trigger] out@[i],
                    seen[i],
                    last_sent(out@.take(i)),
                    filter_view(filter),
                    realtime,
                ) by {
                    if i < earlier.len() {
                        assert(out@[i] == earlier[i]);
                        assert(out@.take(i) =~= earlier.take(i));
                    } else {
                        assert(out@.take(i) =~= earlier);
                    }
                }
            }
        }
        out
    }

    /// Decides on one record, given the timestamp of the send before it:
    /// the payload goes to the codec, and what it finds is replayed as
    /// [`BbinReplayer::replay_frame`] says.
    pub fn replay_record(
        header: &LoggedMessageHeader,
        payload: &[u8],
        prev: Option<i64>,
        filter: Option<&str>,
        realtime: bool,
    ) -> (out: ReplayOutcome)
        ensures
            outcome_fits(
                out,
                RecordView { header: *header, payload: payload@ },
                prev,
                filter_view(filter),
                realtime,
            ),
    {
        let found = match read_frame(payload) {
            Ok(frame) => Some(frame),
            Err(_) => None,
        };
        Self::replay_frame(header, found, prev, filter, realtime)
    }

    /// Decides on one record, given what the codec found in its payload
    /// and the timestamp of the send before it. Nothing found is rejected;
    /// a label that does not pass the filter is filtered; what passes is
    /// framed anew under the record's identifiers and given its delay.
    pub fn replay_frame(
        header: &LoggedMessageHeader,
        found: Option<DecodedFrame>,
        prev: Option<i64>,
        filter: Option<&str>,
        realtime: bool,
    ) -> (out: ReplayOutcome)
        ensures
            outcome_of(out, *header, found_view(found), prev, filter_view(filter), realtime),
    {
        let frame = match found {
            Some(frame) => frame,
            None => {
                return ReplayOutcome::Rejected;
            },
        };
        if !passes_filter(frame.label.as_str(), filter) {
            return ReplayOutcome::Filtered { label: frame.label };
        }
        let bytes = match encode_frame(header.frame_header(), &frame.message) {
            Ok(bytes) => bytes,
            Err(_) => {
                return ReplayOutcome::Rejected;
            },
        };
        let delay_ms = delay_before(prev, header.timestamp, realtime);
        ReplayOutcome::Send(
            ReplayStep { header: *header, delay_ms, label: frame.label, frame: bytes },
        )
    }
}

} // verus!
