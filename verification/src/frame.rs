//! The MAVLink frame codec, reached through a handful of trusted calls.
//!
//! A message stays what the codec made it: the library carries it through.
//! What the library reads of a frame it holds as plain values beside the
//! message: the identifiers, a heartbeat's status code, and the label.

use vstd::prelude::*;
use crate::types::FrameHeader;

verus! {

/// `mavlink::ardupilotmega::MavMessage`, a decoded message, carried
/// through unread.
#[verifier::external_type_specification]
#[verifier::external_body]
pub struct ExMavMessage(mavlink::ardupilotmega::MavMessage);

/// `mavlink::error::MessageReadError`, the codec's error on decoding.
#[verifier::external_type_specification]
#[verifier::external_body]
pub struct ExMessageReadError(mavlink::error::MessageReadError);

/// `mavlink::error::MessageWriteError`, the codec's error on encoding.
#[verifier::external_type_specification]
#[verifier::external_body]
pub struct ExMessageWriteError(mavlink::error::MessageWriteError);

/// `Clone` of a message, as the codec derives it. Nothing is claimed of the
/// copy.
pub assume_specification[ <mavlink::ardupilotmega::MavMessage as Clone>::clone ](
    message: &mavlink::ardupilotmega::MavMessage,
) -> (out: mavlink::ardupilotmega::MavMessage)
;

/// Shortest MAVLink 2 frame: marker, nine header bytes, checksum.
pub const MIN_FRAME_LEN: usize = 12;

/// Longest unsigned MAVLink 2 frame: the shortest around 255 payload bytes.
pub const MAX_FRAME_LEN: usize = 267;

/// The marker that opens a MAVLink 2 frame.
pub const FRAME_MARKER: u8 = 0xFD;

/// The status code of a heartbeat that reports an active vehicle
/// (`MAV_STATE_ACTIVE`).
pub const STATUS_ACTIVE: u8 = 4;

/// A frame that the codec found in a run of bytes.
#[derive(Debug, Clone)]
pub struct DecodedFrame {
    /// The identifiers in the frame header.
    pub header: FrameHeader,
    /// The status code, where the message is a heartbeat.
    pub status: Option<u8>,
    /// The label of the message: its `Debug` rendering, which opens with
    /// the name of the message's type.
    pub label: String,
    /// The message itself.
    pub message: mavlink::ardupilotmega::MavMessage,
    /// How many of the bytes given were left unread behind the frame.
    pub rest: usize,
}

/// What the library reads of a decoded frame.
pub ghost struct FrameView {
    pub header: FrameHeader,
    pub status: Option<u8>,
    pub label: Seq<char>,
    pub rest: int,
}

impl View for DecodedFrame {
    type V = FrameView;

    open spec fn view(&self) -> FrameView {
        FrameView {
            header: self.header,
            status: self.status,
            label: self.label@,
            rest: self.rest as int,
        }
    }
}

/// What the library reads of a frame that may or may not have been found.
pub open spec fn found_view(found: Option<DecodedFrame>) -> Option<FrameView> {
    match found {
        Some(frame) => Some(frame@),
        None => None,
    }
}

/// What the codec makes of a run of bytes: the first frame that
/// `mavlink::read_v2_msg` finds in them, or `None` where it finds none.
pub uninterp spec fn decoded(bytes: Seq<u8>) -> Option<FrameView>;

/// The frames that a chunk of bytes holds: the frame that the codec finds
/// first, then the frames in the bytes it left unread, up to the point
/// where it finds no more.
pub open spec fn frames_in(chunk: Seq<u8>) -> Seq<FrameView>
    decreases chunk.len(),
{
    match decoded(chunk) {
        Some(frame) => if 0 <= frame.rest && frame.rest + MIN_FRAME_LEN <= chunk.len() {
            seq![frame] + frames_in(chunk.skip(chunk.len() - frame.rest))
        } else {
            Seq::empty()
        },
        None => Seq::empty(),
    }
}

/// The status codes of a run of frames.
pub open spec fn statuses_of(frames: Seq<FrameView>) -> Seq<Option<u8>> {
    frames.map_values(|frame: FrameView| frame.status)
}

/// Whether `frame` is an encoded frame that carries the identifiers of
/// `header`: it has a frame's length, opens with the marker, and holds the
/// sequence, system and component at their places in the frame header.
pub open spec fn frame_carries(frame: Seq<u8>, header: FrameHeader) -> bool {
    &&& MIN_FRAME_LEN <= frame.len() <= MAX_FRAME_LEN
    &&& frame[0] == FRAME_MARKER
    &&& frame[4] == header.sequence
    &&& frame[5] == header.system_id
    &&& frame[6] == header.component_id
}

/// Decodes the next frame with `mavlink::read_v2_msg`, which skips what is
/// no frame, and reads off the message what the library needs of it.
/// Trusted: what is found depends on the bytes alone, and a frame that was
/// found took at least the twelve bytes of the shortest frame from them.
#[verifier::external_body]
pub(crate) fn read_frame(bytes: &[u8]) -> (out: Result<
    DecodedFrame,
    mavlink::error::MessageReadError,
>)
    ensures
        out is Ok <==> decoded(bytes@) is Some,
        out is Ok ==> out->Ok_0@ == decoded(bytes@)->Some_0,
        out is Ok ==> out->Ok_0.rest + MIN_FRAME_LEN <= bytes@.len(),
{
    let mut cursor: &[u8] = bytes;
    let (h, message): (mavlink::MavHeader, mavlink::ardupilotmega::MavMessage) =
        mavlink::read_v2_msg(&mut cursor)?;
    let mavlink::MavHeader { system_id, component_id, sequence } = h;
    let header = FrameHeader { system_id, component_id, sequence };
    let status = match &message {
        mavlink::ardupilotmega::MavMessage::HEARTBEAT(data) => Some(data.system_status as u8),
        _ => None,
    };
    let label = format!("{:?}", message);
    Ok(DecodedFrame { header, status, label, message, rest: cursor.len() })
}

/// Encodes a message under `header` with `mavlink::write_v2_msg`, into a
/// vector. Trusted: the call succeeds (a vector takes every write) and
/// yields one unsigned frame that carries the identifiers of `header`.
#[verifier::external_body]
pub(crate) fn encode_frame(
    header: FrameHeader,
    message: &mavlink::ardupilotmega::MavMessage,
) -> (out: Result<Vec<u8>, mavlink::error::MessageWriteError>)
    ensures
        out is Ok,
        frame_carries(out->Ok_0@, header),
{
    let mut frame: Vec<u8> = Vec::new();
    let FrameHeader { system_id, component_id, sequence } = header;
    let h = mavlink::MavHeader { system_id, component_id, sequence };
    mavlink::write_v2_msg(&mut frame, h, message)?;
    Ok(frame)
}

} // verus!
