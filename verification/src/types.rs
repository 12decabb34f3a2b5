//! Plain data carried through the log container and the engines.

use vstd::prelude::*;

verus! {

/// Largest payload length that a record header can carry.
pub const MAX_PAYLOAD_LEN: usize = 65535;

/// Source identifiers of one MAVLink frame.
#[derive(Debug, Clone, Copy, PartialEq, Eq)]
pub struct FrameHeader {
    pub system_id: u8,
    pub component_id: u8,
    pub sequence: u8,
}

/// Fixed-size metadata that precedes the raw payload of every record.
#[derive(Debug, Clone, Copy, PartialEq, Eq)]
pub struct LoggedMessageHeader {
    /// Capture time, milliseconds since the UNIX epoch.
    pub timestamp: i64,
    pub sequence: u8,
    pub system_id: u8,
    pub component_id: u8,
    /// Number of payload bytes that follow the header.
    pub msg_len: u16,
}

impl LoggedMessageHeader {
    /// Builds the record header of a frame captured at `timestamp` whose
    /// encoded form is `msg_len` bytes long. The length is capped to what
    /// the header can say.
    pub fn from_mav_header(timestamp: i64, header: FrameHeader, msg_len: usize) -> (out: Self)
        ensures
            out.timestamp == timestamp,
            out.sequence == header.sequence,
            out.system_id == header.system_id,
            out.component_id == header.component_id,
            out.msg_len == (if msg_len <= MAX_PAYLOAD_LEN {
                msg_len as int
            } else {
                MAX_PAYLOAD_LEN as int
            }),
    {
        let capped: u16 = if msg_len <= MAX_PAYLOAD_LEN {
            msg_len as u16
        } else {
            u16::MAX
        };
        LoggedMessageHeader {
            timestamp,
            sequence: header.sequence,
            system_id: header.system_id,
            component_id: header.component_id,
            msg_len: capped,
        }
    }

    /// The source identifiers that the record was captured with.
    pub open spec fn ids(self) -> FrameHeader {
        FrameHeader {
            system_id: self.system_id,
            component_id: self.component_id,
            sequence: self.sequence,
        }
    }

    /// The source identifiers that the record was captured with.
    pub fn frame_header(&self) -> (out: FrameHeader)
        ensures
            out == self.ids(),
    {
        FrameHeader {
            system_id: self.system_id,
            component_id: self.component_id,
            sequence: self.sequence,
        }
    }
}

/// A decoded message as it is handed to an observer.
#[derive(Debug, Clone)]
pub struct LoggedMessage {
    pub timestamp: i64,
    pub message: mavlink::ardupilotmega::MavMessage,
    pub is_armed: bool,
    pub message_type: String,
}

/// The header that opens every log file.
#[derive(Debug, Clone, Copy, PartialEq, Eq)]
pub struct BbinHeader {
    /// The four bytes `BBIN`.
    pub magic: [u8; 4],
    /// Format version, 1.0 written as 10.
    pub version: u16,
    /// Start of the capture, milliseconds since the UNIX epoch.
    pub start_timestamp: i64,
}

/// One entry of the index that closes a finalized log.
#[derive(Debug, Clone, PartialEq, Eq)]
pub struct BbinIndexEntry {
    pub message_type: String,
    /// Byte offset of the record within the file.
    pub offset: u64,
    pub timestamp: i64,
}

/// One record of the log: its header and exactly `msg_len` payload bytes.
#[derive(Debug, Clone, PartialEq, Eq)]
pub struct Record {
    pub header: LoggedMessageHeader,
    pub payload: Vec<u8>,
}

/// The mathematical value of a [`Record`].
pub ghost struct RecordView {
    pub header: LoggedMessageHeader,
    pub payload: Seq<u8>,
}

impl View for Record {
    type V = RecordView;

    open spec fn view(&self) -> RecordView {
        RecordView { header: self.header, payload: self.payload@ }
    }
}

impl RecordView {
    /// The payload is as long as the header says.
    pub open spec fn wf(self) -> bool {
        self.payload.len() == self.header.msg_len
    }
}

} // verus!
