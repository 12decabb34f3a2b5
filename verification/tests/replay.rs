use blackboxer::bbin_reader::{BbinReader, FormatError};
use blackboxer::bbin_replayer::{delay_before, BbinReplayer, ReplayOutcome, ReplayStep};
use blackboxer::bbin_writer::BbinWriter;
use blackboxer::filter::passes_filter;
use blackboxer::frame::DecodedFrame;
use blackboxer::types::{FrameHeader, LoggedMessageHeader};
use mavlink::ardupilotmega::{MavMessage, MavState, ATTITUDE_DATA, GPS_RAW_INT_DATA, HEARTBEAT_DATA};
use mavlink::MavHeader;

fn heartbeat_message() -> MavMessage {
    MavMessage::HEARTBEAT(HEARTBEAT_DATA {
        system_status: MavState::MAV_STATE_ACTIVE,
        ..HEARTBEAT_DATA::default()
    })
}

fn attitude_message(yaw: f32) -> MavMessage {
    MavMessage::ATTITUDE(ATTITUDE_DATA { yaw, ..ATTITUDE_DATA::default() })
}

fn gps_message(lat: i32) -> MavMessage {
    MavMessage::GPS_RAW_INT(GPS_RAW_INT_DATA { lat, ..GPS_RAW_INT_DATA::default() })
}

fn encoded(system_id: u8, component_id: u8, sequence: u8, message: &MavMessage) -> Vec<u8> {
    let mut out = Vec::new();
    mavlink::write_v2_msg(&mut out, MavHeader { system_id, component_id, sequence }, message)
        .unwrap();
    out
}

fn log_of(entries: &[(i64, u8, MavMessage)]) -> Vec<u8> {
    let mut w = BbinWriter::with_start(0).unwrap();
    for (timestamp, sequence, message) in entries {
        let header = FrameHeader { system_id: 9, component_id: 8, sequence: *sequence };
        w.write_message_raw(*timestamp, header, &encoded(250, 251, 252, message)).unwrap();
    }
    w.take_output()
}

fn sends(outcomes: &[ReplayOutcome]) -> Vec<&ReplayStep> {
    outcomes
        .iter()
        .filter_map(|o| match o {
            ReplayOutcome::Send(step) => Some(step),
            _ => None,
        })
        .collect()
}

#[test]
fn delay_is_the_positive_gap_to_the_send_before() {
    assert_eq!(delay_before(None, 5000, true), 0);
    assert_eq!(delay_before(Some(4000), 5000, true), 1000);
    assert_eq!(delay_before(Some(5000), 5000, true), 0);
    assert_eq!(delay_before(Some(6000), 5000, true), 0);
    assert_eq!(delay_before(Some(4000), 5000, false), 0);
    assert_eq!(delay_before(Some(-3), 4, true), 7);
}

#[test]
fn delay_spans_the_whole_range_of_timestamps() {
    assert_eq!(delay_before(Some(i64::MIN), i64::MAX, true), u64::MAX);
    assert_eq!(delay_before(Some(i64::MIN), 0, true), 1u64 << 63);
    assert_eq!(delay_before(Some(i64::MAX), i64::MIN, true), 0);
}

#[test]
fn two_records_a_second_apart_are_paced_a_second_apart() {
    let t0 = 1_700_000_000_000;
    let log = log_of(&[(t0, 0, attitude_message(1.0)), (t0 + 1000, 1, attitude_message(2.0))]);
    let mut replayer = BbinReplayer::new(log.clone()).unwrap();
    let outcomes = replayer.replay_messages(None, true);
    let steps = sends(&outcomes);
    assert_eq!(steps.len(), 2);
    assert_eq!(steps[0].delay_ms, 0);
    assert_eq!(steps[1].delay_ms, 1000);

    let mut unpaced = BbinReplayer::new(log).unwrap();
    let outcomes = unpaced.replay_messages(None, false);
    assert_eq!(sends(&outcomes).iter().map(|s| s.delay_ms).collect::<Vec<_>>(), vec![0, 0]);
}

#[test]
fn replay_reframes_under_the_identifiers_of_the_record() {
    let log = log_of(&[(10, 77, gps_message(123456))]);
    let mut replayer = BbinReplayer::new(log).unwrap();
    let outcomes = replayer.replay_messages(None, true);
    assert_eq!(outcomes.len(), 1);
    let steps = sends(&outcomes);
    assert_eq!(
        steps[0].header,
        LoggedMessageHeader {
            timestamp: 10,
            sequence: 77,
            system_id: 9,
            component_id: 8,
            msg_len: encoded(250, 251, 252, &gps_message(123456)).len() as u16,
        }
    );
    assert_eq!(steps[0].frame, encoded(9, 8, 77, &gps_message(123456)));
    assert_eq!(steps[0].frame[0], 0xFD);
    assert_eq!(&steps[0].frame[4..7], &[77, 9, 8]);
    assert!(steps[0].label.starts_with("GPS_RAW_INT("));
    assert!(steps[0].label.contains("lat: 123456"));
}

#[test]
fn filter_sends_only_matching_labels_and_paces_across_them() {
    let log = log_of(&[
        (1000, 0, attitude_message(1.0)),
        (1400, 1, gps_message(1)),
        (1900, 2, heartbeat_message()),
        (2500, 3, attitude_message(2.0)),
        (2600, 4, gps_message(2)),
        (2700, 5, attitude_message(3.0)),
    ]);
    let mut replayer = BbinReplayer::new(log.clone()).unwrap();
    let outcomes = replayer.replay_messages(Some("ATTITUDE"), true);
    assert_eq!(outcomes.len(), 6);
    let kinds: Vec<&str> = outcomes
        .iter()
        .map(|o| match o {
            ReplayOutcome::Send(_) => "send",
            ReplayOutcome::Filtered { .. } => "filtered",
            ReplayOutcome::Rejected => "rejected",
        })
        .collect();
    assert_eq!(kinds, vec!["send", "filtered", "filtered", "send", "filtered", "send"]);
    let steps = sends(&outcomes);
    assert!(steps.iter().all(|s| s.label.contains("ATTITUDE")));
    assert_eq!(steps.iter().map(|s| s.header.sequence).collect::<Vec<_>>(), vec![0, 3, 5]);
    assert_eq!(steps.iter().map(|s| s.delay_ms).collect::<Vec<_>>(), vec![0, 1500, 200]);
    for outcome in &outcomes {
        if let ReplayOutcome::Filtered { label } = outcome {
            assert!(!label.contains("ATTITUDE"));
        }
    }

    let mut all = BbinReplayer::new(log).unwrap();
    let outcomes = all.replay_messages(None, true);
    assert_eq!(
        sends(&outcomes).iter().map(|s| s.delay_ms).collect::<Vec<_>>(),
        vec![0, 400, 500, 600, 100, 100]
    );
}

#[test]
fn filter_that_matches_nothing_sends_nothing() {
    let log = log_of(&[(1, 0, attitude_message(1.0)), (2, 1, gps_message(1))]);
    let mut replayer = BbinReplayer::new(log).unwrap();
    let outcomes = replayer.replay_messages(Some("NO_SUCH_MESSAGE"), true);
    assert_eq!(outcomes.len(), 2);
    assert!(sends(&outcomes).is_empty());
}

#[test]
fn timestamps_that_run_backwards_are_not_waited_for() {
    let log = log_of(&[
        (5000, 0, attitude_message(1.0)),
        (4000, 1, attitude_message(2.0)),
        (4500, 2, attitude_message(3.0)),
    ]);
    let mut replayer = BbinReplayer::new(log).unwrap();
    let outcomes = replayer.replay_messages(None, true);
    assert_eq!(sends(&outcomes).iter().map(|s| s.delay_ms).collect::<Vec<_>>(), vec![0, 0, 500]);
}

#[test]
fn a_payload_that_is_no_frame_is_rejected_and_skipped() {
    let mut w = BbinWriter::with_start(0).unwrap();
    let ids = FrameHeader { system_id: 1, component_id: 1, sequence: 0 };
    w.write_message_raw(100, ids, &encoded(1, 1, 0, &attitude_message(1.0))).unwrap();
    w.write_message_raw(200, ids, &[1, 2, 3, 4, 5]).unwrap();
    w.write_message_raw(300, ids, &encoded(1, 1, 1, &attitude_message(2.0))).unwrap();
    let mut replayer = BbinReplayer::new(w.take_output()).unwrap();
    let outcomes = replayer.replay_messages(None, true);
    assert_eq!(outcomes.len(), 3);
    assert_eq!(outcomes[1], ReplayOutcome::Rejected);
    assert_eq!(sends(&outcomes).iter().map(|s| s.delay_ms).collect::<Vec<_>>(), vec![0, 200]);
}

#[test]
fn replay_of_a_truncated_log_ends_at_the_last_complete_record() {
    let log = log_of(&[(1, 0, attitude_message(1.0)), (2, 1, gps_message(1))]);
    let mut replayer = BbinReplayer::new(log[..log.len() - 1].to_vec()).unwrap();
    let outcomes = replayer.replay_messages(None, false);
    assert_eq!(outcomes.len(), 1);
    assert_eq!(sends(&outcomes)[0].header.timestamp, 1);
    assert!(replayer.replay_messages(None, false).is_empty());
}

#[test]
fn replay_of_a_finalized_log_sends_its_messages_only() {
    let mut w = BbinWriter::with_start(0).unwrap();
    let ids = FrameHeader { system_id: 1, component_id: 1, sequence: 0 };
    w.write_message_raw(100, ids, &encoded(1, 1, 0, &attitude_message(1.0))).unwrap();
    w.write_message_raw(350, ids, &encoded(1, 1, 1, &gps_message(5))).unwrap();
    w.finalize().unwrap();
    let mut replayer = BbinReplayer::new(w.take_output()).unwrap();
    let outcomes = replayer.replay_messages(None, true);
    let steps = sends(&outcomes);
    assert_eq!(steps.iter().map(|s| s.header.timestamp).collect::<Vec<_>>(), vec![100, 350]);
    assert_eq!(steps.iter().map(|s| s.delay_ms).collect::<Vec<_>>(), vec![0, 250]);
    assert!(outcomes[2..].iter().all(|o| *o == ReplayOutcome::Rejected));
}

#[test]
fn replayer_rejects_what_the_reader_rejects() {
    assert_eq!(BbinReplayer::new(vec![1, 2, 3]).err(), Some(FormatError::MalformedHeader));
    assert_eq!(BbinReplayer::new(vec![0; 14]).err(), Some(FormatError::BadMagic));
    assert_eq!(BbinReader::new(vec![0; 14]).err(), Some(FormatError::BadMagic));
}

#[test]
fn replay_record_decides_on_one_record() {
    let header = LoggedMessageHeader {
        timestamp: 900,
        sequence: 4,
        system_id: 5,
        component_id: 6,
        msg_len: 0,
    };
    let payload = encoded(1, 2, 3, &heartbeat_message());
    match BbinReplayer::replay_record(&header, &payload, Some(100), Some("HEART"), true) {
        ReplayOutcome::Send(step) => {
            assert_eq!(step.delay_ms, 800);
            assert_eq!(step.frame, encoded(5, 6, 4, &heartbeat_message()));
            assert_eq!(step.header, header);
        }
        other => panic!("expected a send, got {:?}", other),
    }
    match BbinReplayer::replay_record(&header, &payload, Some(100), Some("ATTITUDE"), true) {
        ReplayOutcome::Filtered { label } => assert!(label.starts_with("HEARTBEAT(")),
        other => panic!("expected a filtered record, got {:?}", other),
    }
    assert_eq!(
        BbinReplayer::replay_record(&header, &[], None, None, true),
        ReplayOutcome::Rejected
    );
}

#[test]
fn filter_is_a_substring_match() {
    assert!(passes_filter("GPS_RAW_INT(GPS_RAW_INT_DATA { lat: 1 })", None));
    assert!(passes_filter("GPS_RAW_INT(GPS_RAW_INT_DATA { lat: 1 })", Some("GPS")));
    assert!(passes_filter("GPS_RAW_INT(GPS_RAW_INT_DATA { lat: 1 })", Some("lat: 1")));
    assert!(passes_filter("GPS_RAW_INT", Some("GPS_RAW_INT")));
    assert!(passes_filter("GPS_RAW_INT", Some("")));
    assert!(passes_filter("", Some("")));
    assert!(!passes_filter("GPS_RAW_INT", Some("gps")));
    assert!(!passes_filter("GPS_RAW_INT", Some("GPS_RAW_INT_")));
    assert!(!passes_filter("", Some("A")));
    assert!(!passes_filter("ABAB", Some("BB")));
    assert!(passes_filter("h\u{e9}llo w\u{f6}rld", Some("llo w\u{f6}")));
    assert!(!passes_filter("A", Some("ATTITUDE")));
}

fn found(label: &str, message: MavMessage) -> Option<DecodedFrame> {
    Some(DecodedFrame {
        header: FrameHeader { system_id: 100, component_id: 101, sequence: 102 },
        status: None,
        label: label.to_string(),
        message,
        rest: 0,
    })
}

#[test]
fn replay_frame_decides_on_what_was_found() {
    let header = LoggedMessageHeader {
        timestamp: 2500,
        sequence: 1,
        system_id: 2,
        component_id: 3,
        msg_len: 40,
    };
    assert_eq!(
        BbinReplayer::replay_frame(&header, None, Some(0), None, true),
        ReplayOutcome::Rejected
    );
    assert_eq!(
        BbinReplayer::replay_frame(
            &header,
            found("GPS_RAW_INT", gps_message(1)),
            Some(0),
            Some("ATT"),
            true
        ),
        ReplayOutcome::Filtered { label: "GPS_RAW_INT".to_string() }
    );
    assert_eq!(
        BbinReplayer::replay_frame(
            &header,
            found("ATTITUDE", attitude_message(1.5)),
            Some(1000),
            Some("ATT"),
            true
        ),
        ReplayOutcome::Send(ReplayStep {
            header,
            delay_ms: 1500,
            label: "ATTITUDE".to_string(),
            frame: encoded(2, 3, 1, &attitude_message(1.5)),
        })
    );
    assert_eq!(
        BbinReplayer::replay_frame(
            &header,
            found("ATTITUDE", attitude_message(1.5)),
            None,
            None,
            true
        ),
        ReplayOutcome::Send(ReplayStep {
            header,
            delay_ms: 0,
            label: "ATTITUDE".to_string(),
            frame: encoded(2, 3, 1, &attitude_message(1.5)),
        })
    );
}

#[test]
fn a_raw_payload_is_indexed_under_the_label_of_its_message() {
    let ids = FrameHeader { system_id: 1, component_id: 1, sequence: 0 };
    let gps = encoded(1, 1, 0, &gps_message(42));
    let att = encoded(1, 1, 1, &attitude_message(0.5));
    let mut w = BbinWriter::with_start(0).unwrap();
    w.write_message_raw(10, ids, &gps).unwrap();
    w.write_message_raw(20, ids, &[9, 9, 9]).unwrap();
    w.write_message_raw(30, ids, &att).unwrap();
    w.finalize().unwrap();
    let file = w.take_output();
    let end = file.len();
    let footer: u64 = bincode::deserialize(&file[end - 8..]).unwrap();
    let index: Vec<(String, u64, i64)> =
        bincode::deserialize(&file[footer as usize..end - 8]).unwrap();
    assert_eq!(index.len(), 3);
    assert_eq!(index[0].0, format!("{:?}", gps_message(42)));
    assert!(index[0].0.starts_with("GPS_RAW_INT("));
    assert_eq!(index[1].0, "MavMessage");
    assert_eq!(index[2].0, format!("{:?}", attitude_message(0.5)));
    assert!(index[2].0.starts_with("ATTITUDE("));
    assert_eq!(index[0].1, 14);
    assert_eq!(index[1].1, 14 + 13 + gps.len() as u64);
    assert_eq!(index.iter().map(|row| row.2).collect::<Vec<_>>(), vec![10, 20, 30]);
}

#[test]
fn replay_ends_behind_the_last_complete_record() {
    let log = log_of(&[(1, 0, attitude_message(1.0)), (2, 1, gps_message(1))]);
    let whole = log.len();
    let mut replayer = BbinReplayer::new(log.clone()).unwrap();
    assert_eq!(replayer.offset(), 14);
    replayer.replay_messages(Some("GPS"), true);
    assert_eq!(replayer.offset(), whole);

    let mut cut = BbinReplayer::new(log[..whole - 1].to_vec()).unwrap();
    cut.replay_messages(None, false);
    let first = 14 + 13 + encoded(250, 251, 252, &attitude_message(1.0)).len();
    assert_eq!(cut.offset(), first);
}
