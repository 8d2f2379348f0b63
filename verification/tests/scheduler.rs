use can_bridge::can_protocol::{create_can_send_packet_fixed, create_can_send_packet_variable, CodecError};
use can_bridge::csv_loop::{
    generate_stop_signal, stop_payload_after, LoadError, ReplaySession, ReplayStep, RowError,
    StopSignalError,
};
use can_bridge::infinite_loop::{GeneratorSession, GeneratorStep, CONTROL_CAN_ID, TICK_MS};
use can_bridge::CsvLoopProgress;

fn row(can_id: &str, can_data: &str) -> CsvLoopProgress {
    CsvLoopProgress {
        index: 0,
        total: 0,
        can_id: can_id.to_string(),
        can_data: can_data.to_string(),
        vehicle_control: None,
    }
}

fn expect_send(step: ReplayStep) -> (Vec<u8>, bool) {
    match step {
        ReplayStep::Send { packet, pause } => (packet, pause),
        other => panic!("unexpected {:?}", other),
    }
}

fn expect_finished(step: ReplayStep) -> Option<Vec<u8>> {
    match step {
        ReplayStep::Finished { stop } => stop,
        other => panic!("unexpected {:?}", other),
    }
}

#[test]
fn stop_payload_values() {
    assert_eq!(stop_payload_after(0x00), vec![0x04, 0, 0, 0, 0, 0, 0x10, 0x14]);
    assert_eq!(stop_payload_after(0x0F), vec![0x04, 0, 0, 0, 0, 0, 0x10, 0x14]);
    assert_eq!(stop_payload_after(0x20), vec![0x04, 0, 0, 0, 0, 0, 0x30, 0x34]);
    assert_eq!(stop_payload_after(0xE5), vec![0x04, 0, 0, 0, 0, 0, 0xF0, 0xF4]);
    assert_eq!(stop_payload_after(0xF0), vec![0x04, 0, 0, 0, 0, 0, 0x00, 0x04]);
    assert_eq!(stop_payload_after(0xFF), vec![0x04, 0, 0, 0, 0, 0, 0x00, 0x04]);
}

#[test]
fn stop_payload_checksum_is_the_xor_of_seven_bytes() {
    for byte6 in 0u8..=255 {
        let stop = stop_payload_after(byte6);
        assert_eq!(stop.len(), 8);
        assert_eq!(&stop[..6], &[0x04, 0, 0, 0, 0, 0]);
        assert_eq!(stop[6] & 0x0F, 0);
        assert_eq!(stop[6] >> 4, ((byte6 >> 4) + 1) % 16);
        assert_eq!(stop[7], stop[..7].iter().fold(0u8, |acc, b| acc ^ b));
    }
}

#[test]
fn stop_signal_text() {
    assert_eq!(
        generate_stop_signal("01 02 03 04 05 06 20 08").unwrap(),
        "04 00 00 00 00 00 30 34"
    );
    assert_eq!(
        generate_stop_signal("zz zz zz zz zz zz F1 zz zz").unwrap(),
        "04 00 00 00 00 00 00 04"
    );
    assert_eq!(
        generate_stop_signal("01 02 03 04 05 06 07"),
        Err(StopSignalError::InvalidFormat)
    );
    assert_eq!(generate_stop_signal("0102030405060708"), Err(StopSignalError::InvalidFormat));
    assert_eq!(generate_stop_signal(""), Err(StopSignalError::InvalidFormat));
    assert_eq!(
        generate_stop_signal("01 02 03 04 05 06 GG 08"),
        Err(StopSignalError::InvalidHeartbeat)
    );
    assert_eq!(
        generate_stop_signal("01 02 03 04 05 06 100 08"),
        Err(StopSignalError::InvalidHeartbeat)
    );
    assert_eq!(
        StopSignalError::InvalidFormat.message(),
        "Invalid CAN data format for stop signal generation"
    );
    assert_eq!(StopSignalError::InvalidHeartbeat.message(), "Failed to parse byte 7 as hex");
}

#[test]
fn replay_sends_rows_in_order_and_ends_without_stop() {
    let rows = vec![
        row("0x18C4D2D0", "01 02 03 04 05 06 07 08"),
        row("0x18C4D2D1", "11 12 13 14 15 16 27 18"),
        row("0x18C4D2D2", "21"),
    ];
    let mut session = ReplaySession::preloaded(&rows, "fixed");
    assert_eq!(session.total(), 3);
    assert_eq!(session.position(), 0);
    let (first, first_pause) = expect_send(session.advance(true));
    assert_eq!(
        first,
        create_can_send_packet_fixed("0x18C4D2D0", "01 02 03 04 05 06 07 08", "extended").unwrap()
    );
    assert!(first_pause);
    let (second, second_pause) = expect_send(session.advance(true));
    assert_eq!(&second[5..9], &[0xD1, 0xD2, 0xC4, 0x18]);
    assert!(second_pause);
    assert_eq!(session.position(), 2);
    let (third, third_pause) = expect_send(session.advance(true));
    assert_eq!(&third[10..18], &[0x21, 0, 0, 0, 0, 0, 0, 0]);
    assert!(!third_pause);
    assert!(!session.is_finished());
    assert_eq!(expect_finished(session.advance(true)), None);
    assert!(session.is_finished());
    assert_eq!(expect_finished(session.advance(false)), None);
}

#[test]
fn replay_after_the_last_row_sends_no_stop_frame() {
    let rows = vec![row("0x18C4D2D0", "01 02 03 04 05 06 07 08")];
    let mut session = ReplaySession::preloaded(&rows, "fixed");
    expect_send(session.advance(true));
    assert_eq!(expect_finished(session.advance(false)), None);
}

#[test]
fn cancelled_replay_sends_one_stop_frame() {
    let rows = vec![
        row("0x18C4D2D0", "01 02 03 04 05 06 27 08"),
        row("0x18C4D2D0", "11 12 13 14 15 16 37 18"),
        row("0x18C4D2D0", "21 22 23 24 25 26 47 28"),
    ];
    let mut session = ReplaySession::preloaded(&rows, "fixed");
    expect_send(session.advance(true));
    expect_send(session.advance(true));
    let stop = expect_finished(session.advance(false)).unwrap();
    assert_eq!(
        stop,
        create_can_send_packet_fixed("0x18C4D2D0", "04 00 00 00 00 00 40 44", "extended").unwrap()
    );
    assert!(session.is_finished());
    assert_eq!(session.position(), 2);
    assert_eq!(expect_finished(session.advance(false)), None);
    assert_eq!(expect_finished(session.advance(true)), None);
}

#[test]
fn cancelled_replay_in_the_variable_format() {
    let rows = vec![row("0x1", "0102030405060708"), row("0x2", "01")];
    let mut session = ReplaySession::preloaded(&rows, "variable");
    let (first, _) = expect_send(session.advance(true));
    assert_eq!(first, create_can_send_packet_variable("0x1", "0102030405060708", "extended").unwrap());
    let stop = expect_finished(session.advance(false)).unwrap();
    assert_eq!(
        stop,
        create_can_send_packet_variable("0x18C4D2D0", "04 00 00 00 00 00 10 14", "extended")
            .unwrap()
    );
}

#[test]
fn cancelled_replay_before_any_frame_sends_nothing() {
    let rows = vec![row("0x18C4D2D0", "01 02 03 04 05 06 07 08"), row("0x1", "02")];
    let mut session = ReplaySession::preloaded(&rows, "fixed");
    assert_eq!(expect_finished(session.advance(false)), None);
    assert!(session.is_finished());
}

#[test]
fn cancelled_replay_after_a_short_payload_sends_no_stop_frame() {
    let rows = vec![row("0x1", "01 02 03 04 05 06 07"), row("0x1", "02")];
    let mut session = ReplaySession::preloaded(&rows, "fixed");
    expect_send(session.advance(true));
    assert_eq!(expect_finished(session.advance(false)), None);
}

#[test]
fn replay_ends_at_a_blank_payload() {
    let rows = vec![row("0x1", "01"), row("0x1", " \t "), row("0x1", "03")];
    let mut session = ReplaySession::preloaded(&rows, "fixed");
    expect_send(session.advance(true));
    assert_eq!(expect_finished(session.advance(true)), None);
    assert!(session.is_finished());

    let rows = vec![row("0x1", "")];
    let mut session = ReplaySession::preloaded(&rows, "fixed");
    assert_eq!(expect_finished(session.advance(true)), None);
}

#[test]
fn replay_is_aborted_by_a_row_that_is_no_frame() {
    let rows = vec![row("0x1", "01"), row("0x1", "GG"), row("0x1", "03")];
    let mut session = ReplaySession::preloaded(&rows, "fixed");
    expect_send(session.advance(true));
    assert!(matches!(
        session.advance(true),
        ReplayStep::Failed(RowError::Codec(CodecError::MalformedHex))
    ));
    assert!(session.is_finished());
    assert_eq!(expect_finished(session.advance(true)), None);

    let rows = vec![row("0x20000000", "01")];
    let mut session = ReplaySession::preloaded(&rows, "fixed");
    assert!(matches!(
        session.advance(true),
        ReplayStep::Failed(RowError::Codec(CodecError::IdOutOfRange { id: 0x20000000, extended: true }))
    ));
}

#[test]
fn replay_frames_are_always_extended() {
    let rows = vec![row("0x123", "01")];
    let mut session = ReplaySession::preloaded(&rows, "fixed");
    let (p, _) = expect_send(session.advance(true));
    assert_eq!(p[3], 0x02);
}

#[test]
fn replay_of_no_rows_is_over_at_once() {
    let mut session = ReplaySession::preloaded(&Vec::new(), "fixed");
    assert_eq!(session.total(), 0);
    assert_eq!(expect_finished(session.advance(true)), None);
}

#[test]
fn replay_from_csv_text() {
    let csv = "t0,0x18C4D2D0,01 02 03 04 05 06 07 08\nt1,0x18C4D2D0,\"11 12 13 14 15 16 27 18\"\nt2,0x123,AABB\n";
    let mut session = ReplaySession::from_csv(csv, 1, 2, 1, "fixed").unwrap();
    assert_eq!(session.total(), 3);
    assert_eq!(session.position(), 1);
    let (second, second_pause) = expect_send(session.advance(true));
    assert_eq!(
        second,
        create_can_send_packet_fixed("0x18C4D2D0", "11 12 13 14 15 16 27 18", "extended").unwrap()
    );
    assert!(second_pause);
    let (third, third_pause) = expect_send(session.advance(true));
    assert_eq!(third, create_can_send_packet_fixed("0x123", "AABB", "extended").unwrap());
    assert!(!third_pause);
    assert_eq!(expect_finished(session.advance(true)), None);
}

#[test]
fn replay_from_csv_keeps_the_first_line_as_a_record() {
    let mut session = ReplaySession::from_csv("0x1,01\n0x2,02\n", 0, 1, 0, "variable").unwrap();
    let (p, _) = expect_send(session.advance(true));
    assert_eq!(p, create_can_send_packet_variable("0x1", "01", "extended").unwrap());
}

#[test]
fn replay_load_errors() {
    assert!(matches!(ReplaySession::from_csv("", 0, 1, 0, "fixed"), Err(LoadError::EmptyCsv)));
    assert!(matches!(
        ReplaySession::from_csv("0x1,01\n", 0, 1, 1, "fixed"),
        Err(LoadError::StartRowOutOfRange)
    ));
    assert!(matches!(
        ReplaySession::from_csv("0x1,01\n0x2\n", 0, 1, 0, "fixed"),
        Err(LoadError::Csv(_))
    ));
    assert!(matches!(
        ReplaySession::from_records(Vec::new(), 0, 1, 0, "fixed"),
        Err(LoadError::EmptyCsv)
    ));
    assert!(matches!(
        ReplaySession::from_records(vec![vec!["0x1".to_string()]], 0, 1, 7, "fixed"),
        Err(LoadError::StartRowOutOfRange)
    ));
}

#[test]
fn replay_row_without_the_columns() {
    let mut session = ReplaySession::from_csv("0x1,01\n", 2, 1, 0, "fixed").unwrap();
    assert!(matches!(session.advance(true), ReplayStep::Failed(RowError::IdColumnOutOfRange)));
    assert!(session.is_finished());
    let mut session = ReplaySession::from_csv("0x1,01\n", 0, 2, 0, "fixed").unwrap();
    assert!(matches!(session.advance(true), ReplayStep::Failed(RowError::DataColumnOutOfRange)));
    let mut session = ReplaySession::from_csv("0x1,01\n", 5, 6, 0, "fixed").unwrap();
    assert!(matches!(session.advance(true), ReplayStep::Failed(RowError::IdColumnOutOfRange)));
}

#[test]
fn generator_sends_control_frames() {
    assert_eq!(TICK_MS, 20);
    assert_eq!(CONTROL_CAN_ID, 0x200);
    let mut session = GeneratorSession::new();
    match session.tick(true, 1500, 0) {
        GeneratorStep::Send { packet, can_data } => {
            assert_eq!(can_data, "05DC000000000000");
            assert_eq!(packet, create_can_send_packet_fixed("0x200", &can_data, "standard").unwrap());
            assert_eq!(
                packet,
                vec![
                    0xAA, 0x55, 0x01, 0x01, 0x01, 0x00, 0x02, 0x00, 0x00, 0x08, 0x05, 0xDC, 0, 0, 0,
                    0, 0, 0, 0x00, 0xEE
                ]
            );
        }
        other => panic!("unexpected {:?}", other),
    }
    match session.tick(true, -3000, -22000) {
        GeneratorStep::Send { packet, can_data } => {
            assert_eq!(can_data, "F448AA1000000000");
            assert_eq!(packet, create_can_send_packet_fixed("0x200", &can_data, "standard").unwrap());
        }
        other => panic!("unexpected {:?}", other),
    }
    assert!(!session.is_finished());
}

#[test]
fn cancelled_generator_sends_one_stop_frame_then_a_frame_at_rest() {
    let mut session = GeneratorSession::new();
    let mut enqueued: Vec<Vec<u8>> = Vec::new();
    for (speed, steering) in [(1500i16, 0i16), (1600, 120), (1700, 250)] {
        match session.tick(true, speed, steering) {
            GeneratorStep::Send { packet, .. } => enqueued.push(packet),
            other => panic!("unexpected {:?}", other),
        }
    }
    match session.tick(false, 1800, 300) {
        GeneratorStep::Finished { stop, last } => {
            enqueued.extend(stop);
            enqueued.push(last);
        }
        other => panic!("unexpected {:?}", other),
    }
    assert!(session.is_finished());
    assert!(matches!(session.tick(false, 0, 0), GeneratorStep::Over));
    assert!(matches!(session.tick(true, 0, 0), GeneratorStep::Over));

    assert_eq!(enqueued.len(), 5);
    let stops: Vec<usize> = (0..enqueued.len())
        .filter(|&i| enqueued[i][10..16] == [0x04, 0x00, 0x00, 0x00, 0x00, 0x00])
        .collect();
    assert_eq!(stops, vec![3]);
    assert_eq!(
        enqueued[3],
        create_can_send_packet_fixed("0x200", "04 00 00 00 00 00 10 14", "standard").unwrap()
    );
    assert_eq!(
        enqueued[4],
        create_can_send_packet_fixed("0x200", "0000000000000000", "standard").unwrap()
    );
}

#[test]
fn generator_cancelled_before_any_frame_sends_only_the_frame_at_rest() {
    let mut session = GeneratorSession::new();
    match session.tick(false, 1500, 0) {
        GeneratorStep::Finished { stop, last } => {
            assert_eq!(stop, None);
            assert_eq!(&last[10..18], &[0; 8]);
        }
        other => panic!("unexpected {:?}", other),
    }
}
