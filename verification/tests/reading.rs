use blackboxer::bbin_reader::BbinReader;
use blackboxer::bbin_writer::BbinWriter;
use blackboxer::frame::DecodedFrame;
use blackboxer::types::{FrameHeader, LoggedMessageHeader};
use mavlink::ardupilotmega::{MavMessage, ATTITUDE_DATA, GPS_RAW_INT_DATA};
use mavlink::MavHeader;

fn attitude_of(pitch: f32) -> MavMessage {
    MavMessage::ATTITUDE(ATTITUDE_DATA { pitch, ..ATTITUDE_DATA::default() })
}

fn gps_of(lon: i32) -> MavMessage {
    MavMessage::GPS_RAW_INT(GPS_RAW_INT_DATA { lon, ..GPS_RAW_INT_DATA::default() })
}

fn wire(sequence: u8, message: &MavMessage) -> Vec<u8> {
    let mut out = Vec::new();
    mavlink::write_v2_msg(
        &mut out,
        MavHeader { system_id: 1, component_id: 1, sequence },
        message,
    )
    .unwrap();
    out
}

fn mixed_log(finalize: bool) -> Vec<u8> {
    let ids = FrameHeader { system_id: 1, component_id: 1, sequence: 0 };
    let mut w = BbinWriter::with_start(0).unwrap();
    w.write_message_raw(10, ids, &wire(0, &attitude_of(1.0))).unwrap();
    w.write_message_raw(20, ids, &wire(1, &gps_of(2))).unwrap();
    w.write_message_raw(30, ids, &[0xFD, 1, 2]).unwrap();
    w.write_message_raw(40, ids, &wire(2, &attitude_of(3.0))).unwrap();
    if finalize {
        w.finalize().unwrap();
    }
    w.take_output()
}

#[test]
fn collect_decodes_every_record_that_holds_a_message() {
    let mut reader = BbinReader::new(mixed_log(false)).unwrap();
    let messages = reader.read_and_collect(None);
    assert_eq!(messages.len(), 3);
    assert_eq!(messages.iter().map(|m| m.timestamp).collect::<Vec<_>>(), vec![10, 20, 40]);
    assert!(messages.iter().all(|m| !m.is_armed));
    assert_eq!(messages[0].message, attitude_of(1.0));
    assert_eq!(messages[1].message, gps_of(2));
    assert_eq!(messages[2].message, attitude_of(3.0));
    assert!(messages[1].message_type.starts_with("GPS_RAW_INT("));
    assert!(reader.read_and_collect(None).is_empty());
}

#[test]
fn collect_with_a_filter_keeps_matching_labels() {
    let mut reader = BbinReader::new(mixed_log(false)).unwrap();
    let messages = reader.read_and_collect(Some("ATTITUDE"));
    assert_eq!(messages.iter().map(|m| m.timestamp).collect::<Vec<_>>(), vec![10, 40]);
    assert!(messages.iter().all(|m| m.message_type.contains("ATTITUDE")));

    let mut reader = BbinReader::new(mixed_log(false)).unwrap();
    assert!(reader.read_and_collect(Some("HEARTBEAT")).is_empty());
}

#[test]
fn collect_from_a_finalized_log_is_the_same() {
    let mut reader = BbinReader::new(mixed_log(true)).unwrap();
    let messages = reader.read_and_collect(None);
    assert_eq!(messages.iter().map(|m| m.timestamp).collect::<Vec<_>>(), vec![10, 20, 40]);
}

#[test]
fn read_messages_shows_only_on_request() {
    let mut reader = BbinReader::new(mixed_log(false)).unwrap();
    assert!(reader.read_messages(None, false).is_empty());
    assert!(reader.read_records().is_empty());

    let mut reader = BbinReader::new(mixed_log(false)).unwrap();
    let shown = reader.read_messages(None, true);
    assert_eq!(shown.iter().map(|m| m.timestamp).collect::<Vec<_>>(), vec![10, 20, 40]);

    let mut reader = BbinReader::new(mixed_log(false)).unwrap();
    let shown = reader.read_messages(Some("GPS"), true);
    assert_eq!(shown.iter().map(|m| m.timestamp).collect::<Vec<_>>(), vec![20]);
    assert_eq!(shown[0].message, gps_of(2));
}

#[test]
fn collect_frame_keeps_what_passes_the_filter() {
    let header = LoggedMessageHeader {
        timestamp: 55,
        sequence: 1,
        system_id: 2,
        component_id: 3,
        msg_len: 0,
    };
    let frame = |label: &str| {
        Some(DecodedFrame {
            header: FrameHeader { system_id: 9, component_id: 9, sequence: 9 },
            status: Some(4),
            label: label.to_string(),
            message: gps_of(7),
            rest: 3,
        })
    };
    assert!(BbinReader::collect_frame(&header, None, None).is_none());
    assert!(BbinReader::collect_frame(&header, frame("GPS_RAW_INT"), Some("ATTITUDE")).is_none());
    let kept = BbinReader::collect_frame(&header, frame("GPS_RAW_INT"), Some("RAW")).unwrap();
    assert_eq!(kept.timestamp, 55);
    assert!(!kept.is_armed);
    assert_eq!(kept.message_type, "GPS_RAW_INT");
    assert_eq!(kept.message, gps_of(7));
    let kept = BbinReader::collect_frame(&header, frame("X"), None).unwrap();
    assert_eq!(kept.message_type, "X");
}

#[test]
fn decode_record_reads_the_payload() {
    let header = LoggedMessageHeader {
        timestamp: 77,
        sequence: 0,
        system_id: 0,
        component_id: 0,
        msg_len: 0,
    };
    let kept = BbinReader::decode_record(&header, &wire(3, &attitude_of(0.5)), None).unwrap();
    assert_eq!(kept.timestamp, 77);
    assert_eq!(kept.message, attitude_of(0.5));
    assert!(kept.message_type.starts_with("ATTITUDE(ATTITUDE_DATA {"));
    assert!(kept.message_type.contains("pitch: 0.5"));
    assert!(BbinReader::decode_record(&header, &wire(3, &attitude_of(0.5)), Some("GPS")).is_none());
    assert!(BbinReader::decode_record(&header, &[1, 2, 3], None).is_none());
}

#[test]
fn filter_and_show_do_not_change_what_is_read() {
    let mut ends = Vec::new();
    for (filter, show) in [(None, false), (None, true), (Some("GPS"), true), (Some("NONE"), false)]
    {
        let mut reader = BbinReader::new(mixed_log(false)).unwrap();
        assert_eq!(reader.offset(), 14);
        reader.read_messages(filter, show);
        ends.push(reader.offset());
    }
    let mut reader = BbinReader::new(mixed_log(false)).unwrap();
    reader.read_and_collect(Some("ATTITUDE"));
    ends.push(reader.offset());
    let mut reader = BbinReader::new(mixed_log(false)).unwrap();
    reader.read_records();
    ends.push(reader.offset());
    let whole = mixed_log(false).len();
    assert!(ends.iter().all(|end| *end == whole));

    let mut cut = BbinReader::new(mixed_log(false)[..whole - 2].to_vec()).unwrap();
    cut.read_messages(None, true);
    let last = 13 + wire(2, &attitude_of(3.0)).len();
    assert_eq!(cut.offset(), whole - last);
}
