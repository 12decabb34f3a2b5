//! The capture engine: tracks whether the vehicle is armed, decides for
//! every decoded frame whether it is persisted, and hands what is persisted
//! to the log writer.
//!
//! The engine owns no transport. The caller reads chunks of bytes and gives
//! each to [`BlackBoxer::capture_messages`]; what the loop does next is
//! decided by [`BlackBoxer::next_action`].

use vstd::prelude::*;
use crate::bbin_writer::{BbinWriter, WriteError};
use crate::clock::now_millis;
use crate::format::{lemma_records_bytes_push, record_bytes, records_bytes, RECORD_HEADER_LEN};
use crate::frame::{
    encode_frame, frame_carries, frames_in, read_frame, statuses_of, DecodedFrame, FrameView,
    MAX_FRAME_LEN, MIN_FRAME_LEN, STATUS_ACTIVE,
};
use crate::types::{LoggedMessage, RecordView};

verus! {

/// How a capture session is set up.
#[derive(Debug, Clone)]
pub struct BlackBoxerConfig {
    /// Persist only what arrives while the vehicle is armed.
    pub armed_only: bool,
    /// Address of the transport to capture from.
    pub addr: String,
}

/// Why a capture stopped in the middle of a chunk.
#[derive(Debug, Clone, Copy, PartialEq, Eq)]
pub enum CaptureError {
    /// The codec could not encode a message it had decoded. The codec
    /// encodes into memory, where this does not happen.
    Encode,
    /// The log writer refused the record.
    Write(WriteError),
    /// A read from the transport failed.
    Transport,
}

/// What the capture loop met at the top of an iteration.
#[derive(Debug, Clone, Copy, PartialEq, Eq)]
pub enum CaptureEvent {
    /// The stop signal was raised; nothing was read.
    StopRaised,
    /// The read returned this many bytes.
    Read(usize),
    /// Nothing is there to read yet.
    WouldBlock,
    /// The read failed for any other reason.
    ReadFailed,
}

/// What the capture loop does next.
#[derive(Debug, Clone, Copy, PartialEq, Eq)]
pub enum CaptureAction {
    /// Decode the chunk that was read.
    Decode,
    /// Wait this many milliseconds, then read again.
    Backoff(u64),
    /// Leave the loop and finalize the log.
    Finalize,
}

/// How long the capture loop waits when there was nothing to read.
pub const BACKOFF_MS: u64 = 10;

/// What the engine decided of one frame.
#[derive(Debug, Clone, Copy, PartialEq, Eq)]
pub struct CaptureDecision {
    /// The frame changed the armed state: an edge to report.
    pub changed: bool,
    /// The frame is persisted.
    pub persist: bool,
}

/// The armed state behind a frame: a heartbeat sets it to whether its
/// status is active, any other frame leaves it.
pub open spec fn armed_after_frame(armed: bool, status: Option<u8>) -> bool {
    match status {
        Some(code) => code == STATUS_ACTIVE,
        None => armed,
    }
}

/// The arming gate: everything passes unless only armed traffic is wanted
/// and the vehicle is disarmed.
pub open spec fn gate_open(armed_only: bool, armed: bool) -> bool {
    !armed_only || armed
}

/// The label of the notice that reports a change of the armed state.
pub open spec fn arm_state_label() -> Seq<char> {
    "ARM_STATE"@
}

/// The armed state behind a run of frames, given by the status each frame
/// reports.
pub open spec fn armed_after(armed: bool, statuses: Seq<Option<u8>>) -> bool
    decreases statuses.len(),
{
    if statuses.len() == 0 {
        armed
    } else {
        armed_after_frame(armed_after(armed, statuses.drop_last()), statuses.last())
    }
}

/// Whether frame `i` of a run is persisted: the arming gate decides by the
/// armed state that the frame leaves.
pub open spec fn persisted(
    armed_only: bool,
    armed: bool,
    statuses: Seq<Option<u8>>,
    i: int,
) -> bool {
    gate_open(armed_only, armed_after(armed, statuses.take(i + 1)))
}

/// Frame `j` of a run arms the vehicle: it is a heartbeat with an active
/// status and finds the vehicle disarmed.
pub open spec fn arms_at(armed: bool, statuses: Seq<Option<u8>>, j: int) -> bool {
    !armed_after(armed, statuses.take(j)) && statuses[j] == Some(STATUS_ACTIVE)
}

/// Frame `j` of a run disarms the vehicle: it is a heartbeat with another
/// status than active and finds the vehicle armed.
pub open spec fn disarms_at(armed: bool, statuses: Seq<Option<u8>>, j: int) -> bool {
    &&& armed_after(armed, statuses.take(j))
    &&& statuses[j] is Some
    &&& statuses[j] != Some(STATUS_ACTIVE)
}

/// The armed state behind frame `j` is what frame `j` makes of the state
/// before it: a run is observed frame by frame.
pub proof fn lemma_armed_after_step(armed: bool, statuses: Seq<Option<u8>>, j: int)
    requires
        0 <= j < statuses.len(),
    ensures
        armed_after(armed, statuses.take(j + 1)) == armed_after_frame(
            armed_after(armed, statuses.take(j)),
            statuses[j],
        ),
{
    assert(statuses.take(j + 1).drop_last() =~= statuses.take(j));
}

/// Arming gate, closed. In a session that starts disarmed and persists
/// only armed traffic, no frame up to and including frame `i` is persisted
/// as long as no frame up to `i` has armed the vehicle.
pub proof fn lemma_nothing_persisted_before_arming(statuses: Seq<Option<u8>>, i: int)
    requires
        0 <= i < statuses.len(),
        forall|j: int| 0 <= j <= i ==> !arms_at(false, statuses, j),
    ensures
        !persisted(true, false, statuses, i),
    decreases i,
{
    lemma_armed_after_step(false, statuses, i);
    assert(!arms_at(false, statuses, i));
    if i == 0 {
        assert(statuses.take(0) =~= Seq::<Option<u8>>::empty());
    } else {
        lemma_nothing_persisted_before_arming(statuses, i - 1);
    }
}

/// Arming gate, open. The frame that arms the vehicle and every frame
/// behind it are persisted, whatever the session started as and whether or
/// not only armed traffic is wanted, up to the next frame that disarms it.
pub proof fn lemma_everything_persisted_while_armed(
    armed_only: bool,
    armed: bool,
    statuses: Seq<Option<u8>>,
    j: int,
    i: int,
)
    requires
        0 <= j <= i < statuses.len(),
        arms_at(armed, statuses, j),
        forall|k: int| j < k <= i ==> !disarms_at(armed, statuses, k),
    ensures
        persisted(armed_only, armed, statuses, i),
    decreases i - j,
{
    lemma_armed_after_step(armed, statuses, i);
    if i > j {
        lemma_everything_persisted_while_armed(armed_only, armed, statuses, j, i - 1);
        assert(!disarms_at(armed, statuses, i));
    }
}

/// Without the arming gate every frame is persisted.
pub proof fn lemma_everything_persisted_without_gate(
    armed: bool,
    statuses: Seq<Option<u8>>,
    i: int,
)
    ensures
        persisted(false, armed, statuses, i),
{
}

/// What the engine determines of a notice: whether it shows the vehicle
/// armed, and its label.
pub ghost struct NoticeView {
    pub is_armed: bool,
    pub label: Seq<char>,
}

/// What the engine determines of a notice.
pub open spec fn notice_view(notice: LoggedMessage) -> NoticeView {
    NoticeView { is_armed: notice.is_armed, label: notice.message_type@ }
}

/// What the engine determines of a run of notices.
pub open spec fn notice_views(notices: Seq<LoggedMessage>) -> Seq<NoticeView> {
    notices.map_values(|notice: LoggedMessage| notice_view(notice))
}

/// The report of a change of the armed state: one notice under the label
/// `ARM_STATE` where the frame changes the state, none where it does not.
pub open spec fn edge_notices(armed: bool, status: Option<u8>) -> Seq<NoticeView> {
    let now = armed_after_frame(armed, status);
    if now != armed {
        seq![NoticeView { is_armed: now, label: arm_state_label() }]
    } else {
        Seq::empty()
    }
}

/// The notices that a frame gives rise to where it finds the vehicle
/// `armed`: the report of a change, if it makes one, and then the frame
/// under its own label, if the arming gate lets it through.
pub open spec fn frame_notices(armed_only: bool, armed: bool, frame: FrameView) -> Seq<
    NoticeView,
> {
    let now = armed_after_frame(armed, frame.status);
    if gate_open(armed_only, now) {
        edge_notices(armed, frame.status).push(NoticeView { is_armed: now, label: frame.label })
    } else {
        edge_notices(armed, frame.status)
    }
}

/// The notices that a run of frames gives rise to, frame by frame.
pub open spec fn capture_notices(armed_only: bool, armed: bool, frames: Seq<FrameView>) -> Seq<
    NoticeView,
>
    decreases frames.len(),
{
    if frames.len() == 0 {
        Seq::empty()
    } else {
        capture_notices(armed_only, armed, frames.drop_last()) + frame_notices(
            armed_only,
            armed_after(armed, statuses_of(frames.drop_last())),
            frames.last(),
        )
    }
}

/// The frames of a run that are persisted, in their order: those that the
/// arming gate lets through.
pub open spec fn capture_log(armed_only: bool, armed: bool, frames: Seq<FrameView>) -> Seq<
    FrameView,
>
    decreases frames.len(),
{
    if frames.len() == 0 {
        Seq::empty()
    } else {
        let before = capture_log(armed_only, armed, frames.drop_last());
        if gate_open(armed_only, armed_after(armed, statuses_of(frames))) {
            before.push(frames.last())
        } else {
            before
        }
    }
}

/// The log of a run grows frame by frame: frame `i` joins what the frames
/// before it have left in the log exactly where it is persisted.
pub proof fn lemma_capture_log_step(
    armed_only: bool,
    armed: bool,
    frames: Seq<FrameView>,
    i: int,
)
    requires
        0 <= i < frames.len(),
    ensures
        capture_log(armed_only, armed, frames.take(i + 1)) == (if persisted(
            armed_only,
            armed,
            statuses_of(frames),
            i,
        ) {
            capture_log(armed_only, armed, frames.take(i)).push(frames[i])
        } else {
            capture_log(armed_only, armed, frames.take(i))
        }),
{
    assert(frames.take(i + 1).drop_last() =~= frames.take(i));
    assert(statuses_of(frames.take(i + 1)) =~= statuses_of(frames).take(i + 1));
}

/// Whether these records hold these frames, one each and in order: every
/// record bears the identifiers of its frame, is filed under the frame's
/// label, and holds an encoded frame under those identifiers.
pub open spec fn records_hold(
    records: Seq<RecordView>,
    labels: Seq<Seq<char>>,
    frames: Seq<FrameView>,
) -> bool {
    &&& records.len() == frames.len()
    &&& labels.len() == frames.len()
    &&& forall|i: int|
        0 <= i < frames.len() ==> {
            &&& (#[trigger] records[i]).header.ids() == frames[i].header
            &&& labels[i] == frames[i].label
            &&& frame_carries(records[i].payload, frames[i].header)
        }
}

/// The capture engine.
pub struct BlackBoxer {
    is_armed: bool,
    config: BlackBoxerConfig,
}

impl BlackBoxer {
    /// Whether the vehicle is armed.
    pub closed spec fn armed(&self) -> bool {
        self.is_armed
    }

    /// The configuration that the engine was made with.
    pub closed spec fn config(&self) -> BlackBoxerConfig {
        self.config
    }

    /// A new engine: the vehicle counts as disarmed until a heartbeat says
    /// otherwise.
    pub fn new(config: BlackBoxerConfig) -> (out: Self)
        ensures
            !out.armed(),
            out.config() == config,
    {
        BlackBoxer { is_armed: false, config }
    }

    /// Whether the vehicle is armed.
    pub fn is_armed(&self) -> (out: bool)
        ensures
            out == self.armed(),
    {
        self.is_armed
    }

    /// Whether only armed traffic is persisted.
    pub fn armed_only(&self) -> (out: bool)
        ensures
            out == self.config().armed_only,
    {
        self.config.armed_only
    }

    /// What the capture loop does next: a raised stop signal or a failed
    /// read end the loop, and the log is finalized; data is decoded; an
    /// empty read or one that would block is retried after a short wait.
    /// What the session then returns is said by
    /// [`BlackBoxer::session_result`].
    pub fn next_action(event: CaptureEvent) -> (out: CaptureAction)
        ensures
            out == (match event {
                CaptureEvent::StopRaised => CaptureAction::Finalize,
                CaptureEvent::Read(n) => if n > 0 {
                    CaptureAction::Decode
                } else {
                    CaptureAction::Backoff(BACKOFF_MS)
                },
                CaptureEvent::WouldBlock => CaptureAction::Backoff(BACKOFF_MS),
                CaptureEvent::ReadFailed => CaptureAction::Finalize,
            }),
    {
        match event {
            CaptureEvent::StopRaised => CaptureAction::Finalize,
            CaptureEvent::Read(n) => {
                if n > 0 {
                    CaptureAction::Decode
                } else {
                    CaptureAction::Backoff(BACKOFF_MS)
                }
            },
            CaptureEvent::WouldBlock => CaptureAction::Backoff(BACKOFF_MS),
            CaptureEvent::ReadFailed => CaptureAction::Finalize,
        }
    }

    /// How a capture session ends, given the event that ended its loop,
    /// what the last capture came to and what finalizing the log came to.
    /// No fatal error is dropped: a capture that failed is the session's
    /// error; a read that failed is an error of the transport, though the
    /// log was finalized behind it; and so is a finalize that failed. Only
    /// a session that ended on the stop signal, with nothing failed, ends
    /// well.
    pub fn session_result(
        ended_by: CaptureEvent,
        captured: Result<(), CaptureError>,
        finalized: Result<(), WriteError>,
    ) -> (out: Result<(), CaptureError>)
        ensures
            out == (match captured {
                Err(e) => Err::<(), CaptureError>(e),
                Ok(()) => match ended_by {
                    CaptureEvent::ReadFailed => Err(CaptureError::Transport),
                    _ => match finalized {
                        Err(e) => Err(CaptureError::Write(e)),
                        Ok(()) => Ok(()),
                    },
                },
            }),
    {
        match captured {
            Err(e) => Err(e),
            Ok(()) => match ended_by {
                CaptureEvent::ReadFailed => Err(CaptureError::Transport),
                _ => match finalized {
                    Err(e) => Err(CaptureError::Write(e)),
                    Ok(()) => Ok(()),
                },
            },
        }
    }

    /// Takes note of one decoded frame. `status` is the status code of a
    /// heartbeat and `None` for any other message. A heartbeat first sets
    /// the armed state; the arming gate then decides on the frame, the
    /// heartbeat included, by the state it left.
    pub fn observe(&mut self, status: Option<u8>) -> (out: CaptureDecision)
        ensures
            final(self).config() == old(self).config(),
            final(self).armed() == armed_after_frame(old(self).armed(), status),
            out.changed == (final(self).armed() != old(self).armed()),
            out.persist == gate_open(old(self).config().armed_only, final(self).armed()),
    {
        let was_armed = self.is_armed;
        match status {
            Some(code) => {
                self.is_armed = code == STATUS_ACTIVE;
            },
            None => {},
        }
        CaptureDecision {
            changed: self.is_armed != was_armed,
            persist: !self.config.armed_only || self.is_armed,
        }
    }

    /// Captures the frames of one chunk read from the transport. Each
    /// frame the codec finds is stamped with the current time and captured
    /// as [`BlackBoxer::capture_frame`] says. Bytes in which the codec finds
    /// no frame end the chunk: what is left of it is dropped.
    ///
    /// The log only grows at its end, by whole records. Where the capture
    /// succeeds, the armed state is what the frames of the chunk make of
    /// it, the log has grown by the frames that the arming gate lets
    /// through, and the notices are those of the frames; the timestamps are
    /// the clock's. The capture fails only where the log cannot take
    /// another record: it is finalized, or full.
    pub fn capture_messages(
        &mut self,
        writer: &mut BbinWriter,
        chunk: &[u8],
        ui: &mut Vec<LoggedMessage>,
    ) -> (out: Result<(), CaptureError>)
        requires
            old(writer).wf(),
        ensures
            final(self).config() == old(self).config(),
            final(writer).wf(),
            final(writer).finalized() == old(writer).finalized(),
            final(writer).start_timestamp() == old(writer).start_timestamp(),
            final(writer).flushed() == old(writer).flushed(),
            old(writer).records().len() <= final(writer).records().len(),
            final(writer).records().take(old(writer).records().len() as int) == old(
                writer,
            ).records(),
            final(writer).labels().take(old(writer).records().len() as int) == old(
                writer,
            ).labels(),
            final(writer).pending() == old(writer).pending() + records_bytes(
                final(writer).records().skip(old(writer).records().len() as int),
            ),
            old(ui)@.len() <= final(ui)@.len(),
            final(ui)@.take(old(ui)@.len() as int) == old(ui)@,
            out is Ok ==> {
                let frames = frames_in(chunk@);
                let armed_only = old(self).config().armed_only;
                &&& final(self).armed() == armed_after(old(self).armed(), statuses_of(frames))
                &&& records_hold(
                    final(writer).records().skip(old(writer).records().len() as int),
                    final(writer).labels().skip(old(writer).records().len() as int),
                    capture_log(armed_only, old(self).armed(), frames),
                )
                &&& notice_views(final(ui)@.skip(old(ui)@.len() as int)) == capture_notices(
                    armed_only,
                    old(self).armed(),
                    frames,
                )
            },
            out matches Err(e) ==> e == (if old(writer).finalized() {
                CaptureError::Write(WriteError::Finalized)
            } else {
                CaptureError::Write(WriteError::OffsetOverflow)
            }),
            !old(writer).finalized() && old(writer).offset() + 24 * chunk@.len() <= u64::MAX
                ==> out is Ok,
    {
        let ghost records0 = writer.records();
        let ghost labels0 = writer.labels();
        let ghost pending0 = writer.pending();
        let ghost offset0 = writer.offset();
        let ghost ui0 = ui@;
        let ghost armed0 = self.is_armed;
        let ghost armed_only = self.config.armed_only;
        let ghost n0 = records0.len() as int;
        let ghost u0 = ui0.len() as int;
        let ghost mut done: Seq<FrameView> = Seq::empty();
        let mut pos: usize = 0;
        proof {
            assert(writer.records().take(n0) =~= records0);
            assert(writer.labels().take(n0) =~= labels0);
            assert(writer.records().skip(n0) =~= Seq::<RecordView>::empty());
            assert(writer.labels().skip(n0) =~= Seq::<Seq<char>>::empty());
            assert(records_bytes(Seq::<RecordView>::empty()) =~= Seq::<u8>::empty());
            assert(pending0 + Seq::<u8>::empty() =~= pending0);
            assert(ui@.take(u0) =~= ui0);
            assert(chunk@.skip(0) =~= chunk@);
            assert(done + frames_in(chunk@) =~= frames_in(chunk@));
            assert(statuses_of(done) =~= Seq::<Option<u8>>::empty());
            assert(notice_views(ui@.skip(u0)) =~= Seq::<NoticeView>::empty());
        }
        while pos < chunk.len()
            invariant
                pos <= chunk@.len(),
                self.config() == old(self).config(),
                armed_only == self.config().armed_only,
                writer.wf(),
                writer.finalized() == old(writer).finalized(),
                writer.start_timestamp() == old(writer).start_timestamp(),
                writer.flushed() == old(writer).flushed(),
                records0 == old(writer).records(),
                labels0 == old(writer).labels(),
                pending0 == old(writer).pending(),
                offset0 == old(writer).offset(),
                ui0 == old(ui)@,
                armed0 == old(self).armed(),
                n0 == records0.len(),
                n0 == labels0.len(),
                u0 == ui0.len(),
                n0 <= writer.records().len(),
                writer.records().take(n0) == records0,
                writer.labels().take(n0) == labels0,
                writer.pending() == pending0 + records_bytes(writer.records().skip(n0)),
                u0 <= ui@.len(),
                ui@.take(u0) == ui0,
                offset0 + 24 * chunk@.len() <= u64::MAX ==> writer.offset() + 24 * (chunk@.len()
                    - pos) <= u64::MAX,
                frames_in(chunk@) == done + frames_in(chunk@.skip(pos as int)),
                self.armed() == armed_after(armed0, statuses_of(done)),
                records_hold(
                    writer.records().skip(n0),
                    writer.labels().skip(n0),
                    capture_log(armed_only, armed0, done),
                ),
                notice_views(ui@.skip(u0)) == capture_notices(armed_only, armed0, done),
            ensures
                self.config() == old(self).config(),
                writer.wf(),
                writer.finalized() == old(writer).finalized(),
                writer.start_timestamp() == old(writer).start_timestamp(),
                writer.flushed() == old(writer).flushed(),
                n0 <= writer.records().len(),
                writer.records().take(n0) == records0,
                writer.labels().take(n0) == labels0,
                writer.pending() == pending0 + records_bytes(writer.records().skip(n0)),
                u0 <= ui@.len(),
                ui@.take(u0) == ui0,
                frames_in(chunk@) == done,
                self.armed() == armed_after(armed0, statuses_of(done)),
                records_hold(
                    writer.records().skip(n0),
                    writer.labels().skip(n0),
                    capture_log(armed_only, armed0, done),
                ),
                notice_views(ui@.skip(u0)) == capture_notices(armed_only, armed0, done),
            decreases chunk@.len() - pos,
        {
            let rest = vstd::slice::slice_subrange(chunk, pos, chunk.len());
            proof {
                assert(rest@ =~= chunk@.skip(pos as int));
            }
            let frame = match read_frame(rest) {
                Ok(frame) => frame,
                Err(_) => {
                    proof {
                        assert(done + Seq::<FrameView>::empty() =~= done);
                    }
                    break ;
                },
            };
            let ghost found = frame@;
            let ghost left = chunk@.skip(pos as int);
            pos = chunk.len() - frame.rest;
            let timestamp = now_millis();
            let ghost records_before = writer.records();
            let ghost labels_before = writer.labels();
            let ghost ui_before = ui@;
            let ghost armed_before = self.is_armed;
            let ghost logged_before = capture_log(armed_only, armed0, done);
            let outcome = self.capture_frame(writer, ui, timestamp, frame);
            proof {
                assert(chunk@.skip(pos as int) =~= left.skip(left.len() - found.rest));
                assert(done.push(found) + frames_in(chunk@.skip(pos as int)) =~= done + (
                seq![found] + frames_in(chunk@.skip(pos as int))));
                let grown = done.push(found);
                assert(grown.drop_last() =~= done);
                assert(statuses_of(grown).drop_last() =~= statuses_of(done));
                assert(statuses_of(grown).last() == found.status);
                assert(ui@.take(u0) =~= ui_before.take(u0));
                if outcome is Ok {
                    assert(ui@.skip(u0) =~= ui_before.skip(u0) + ui@.skip(ui_before.len() as int));
                    assert(notice_views(ui@.skip(u0)) =~= notice_views(ui_before.skip(u0))
                        + notice_views(ui@.skip(ui_before.len() as int)));
                }
                if outcome == Ok::<bool, CaptureError>(true) {
                    let r = writer.records().last();
                    assert(writer.records() =~= records_before.push(r));
                    assert(writer.records().take(n0) =~= records_before.take(n0));
                    assert(writer.labels().take(n0) =~= labels_before.take(n0));
                    assert(writer.records().skip(n0) =~= records_before.skip(n0).push(r));
                    assert(writer.labels().skip(n0) =~= labels_before.skip(n0).push(found.label));
                    lemma_records_bytes_push(records_before.skip(n0), r);
                    assert(writer.pending() =~= pending0 + records_bytes(
                        writer.records().skip(n0),
                    ));
                    let logged = capture_log(armed_only, armed0, grown);
                    assert(logged == logged_before.push(found));
                    assert forall|i: int| 0 <= i < logged.len() implies {
                        &&& (#[trigger] writer.records().skip(n0)[i]).header.ids()
                            == logged[i].header
                        &&& writer.labels().skip(n0)[i] == logged[i].label
                        &&& frame_carries(writer.records().skip(n0)[i].payload, logged[i].header)
                    } by {
                        if i < logged_before.len() {
                            assert(writer.records().skip(n0)[i] == records_before.skip(n0)[i]);
                            assert(writer.labels().skip(n0)[i] == labels_before.skip(n0)[i]);
                        }
                    }
                }
                done = grown;
            }
            match outcome {
                Ok(_) => {},
                Err(e) => {
                    return Err(e);
                },
            }
        }
        Ok(())
    }

    /// Captures one decoded frame, received at `timestamp`. The frame is
    /// observed; a change of the armed state is reported to `ui` under the
    /// label `ARM_STATE`; and if the arming gate lets the frame through, it
    /// is encoded anew, appended to the log under its label and reported to
    /// `ui` under the same label. The result says whether the frame was
    /// persisted; it is an error only where the log cannot take the record,
    /// being finalized or full, and the log is then as it was.
    pub fn capture_frame(
        &mut self,
        writer: &mut BbinWriter,
        ui: &mut Vec<LoggedMessage>,
        timestamp: i64,
        frame: DecodedFrame,
    ) -> (out: Result<bool, CaptureError>)
        requires
            old(writer).wf(),
        ensures
            final(self).config() == old(self).config(),
            final(self).armed() == armed_after_frame(old(self).armed(), frame.status),
            final(writer).wf(),
            final(writer).finalized() == old(writer).finalized(),
            final(writer).start_timestamp() == old(writer).start_timestamp(),
            final(writer).flushed() == old(writer).flushed(),
            old(ui)@.len() <= final(ui)@.len(),
            final(ui)@.take(old(ui)@.len() as int) == old(ui)@,
            forall|k: int|
                old(ui)@.len() <= k < final(ui)@.len() ==> (#[trigger] final(ui)@[k]).timestamp
                    == timestamp,
            ({
                let armed_only = old(self).config().armed_only;
                let notices = notice_views(final(ui)@.skip(old(ui)@.len() as int));
                match out {
                    Ok(persisted) => {
                        &&& persisted == gate_open(armed_only, final(self).armed())
                        &&& notices == frame_notices(armed_only, old(self).armed(), frame@)
                    },
                    Err(e) => {
                        &&& gate_open(armed_only, final(self).armed())
                        &&& e == (if old(writer).finalized() {
                            CaptureError::Write(WriteError::Finalized)
                        } else {
                            CaptureError::Write(WriteError::OffsetOverflow)
                        })
                        &&& old(writer).finalized() || old(writer).offset() + RECORD_HEADER_LEN
                            + MAX_FRAME_LEN > u64::MAX
                        &&& notices == edge_notices(old(self).armed(), frame.status)
                    },
                }
            }),
            out == Ok::<bool, CaptureError>(true) ==> {
                let r = final(writer).records().last();
                &&& final(writer).records() == old(writer).records().push(r)
                &&& final(writer).labels() == old(writer).labels().push(frame.label@)
                &&& final(writer).pending() == old(writer).pending() + record_bytes(r)
                &&& final(writer).offset() == old(writer).offset() + RECORD_HEADER_LEN
                    + r.payload.len()
                &&& r.header.timestamp == timestamp
                &&& r.header.ids() == frame.header
                &&& frame_carries(r.payload, frame.header)
                &&& final(ui)@.last().message == frame.message
            },
            out != Ok::<bool, CaptureError>(true) ==> {
                &&& final(writer).records() == old(writer).records()
                &&& final(writer).labels() == old(writer).labels()
                &&& final(writer).pending() == old(writer).pending()
                &&& final(writer).offset() == old(writer).offset()
            },
    {
        let ghost ui0 = ui@;
        let ghost u0 = ui0.len() as int;
        let ghost armed0 = self.is_armed;
        let decision = self.observe(frame.status);
        if decision.changed {
            ui.push(
                LoggedMessage {
                    timestamp,
                    message: frame.message.clone(),
                    is_armed: self.is_armed,
                    message_type: "ARM_STATE".to_owned(),
                },
            );
        }
        let ghost ui1 = ui@;
        proof {
            assert(ui1.take(u0) =~= ui0);
            assert(notice_views(ui1.skip(u0)) =~= edge_notices(armed0, frame.status));
        }
        if !decision.persist {
            return Ok(false);
        }
        let raw = match encode_frame(frame.header, &frame.message) {
            Ok(raw) => raw,
            Err(_) => {
                return Err(CaptureError::Encode);
            },
        };
        match writer.write_message(timestamp, frame.header, raw.as_slice(), frame.label.as_str()) {
            Ok(()) => {},
            Err(e) => {
                return Err(CaptureError::Write(e));
            },
        }
        ui.push(
            LoggedMessage {
                timestamp,
                message: frame.message,
                is_armed: self.is_armed,
                message_type: frame.label,
            },
        );
        proof {
            let r = BbinWriter::appended_record(timestamp, frame.header, raw@);
            assert(writer.records().last() == r);
            assert(r.header.ids() == frame.header);
            assert(ui@.take(u0) =~= ui0);
            assert(ui@.skip(u0) =~= ui1.skip(u0).push(ui@.last()));
            assert(notice_views(ui@.skip(u0)) =~= notice_views(ui1.skip(u0)).push(
                notice_view(ui@.last()),
            ));
        }
        Ok(true)
    }
}

} // verus!
