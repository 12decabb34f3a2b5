//! Flight-telemetry black box: a compact append-only binary log of MAVLink
//! frames, with the capture and replay decisions that drive it.
//!
//! The library performs no I/O. The writer hands out the bytes of the log,
//! the reader and the replayer take them, and the capture engine is given
//! the chunks that were read from a transport.

pub mod bbin_reader;
pub mod bbin_replayer;
pub mod bbin_writer;
pub mod blackboxer;
mod clock;
pub mod filter;
pub mod format;
pub mod frame;
pub mod round_trip;
pub mod types;

pub use bbin_reader::BbinReader;
pub use bbin_replayer::BbinReplayer;
pub use bbin_writer::BbinWriter;
pub use blackboxer::{BlackBoxer, BlackBoxerConfig};
pub use types::{LoggedMessage, LoggedMessageHeader};
