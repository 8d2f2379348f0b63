use can_bridge::can_protocol::{
    checksum_of, create_can_config_packet, create_can_send_packet, create_can_send_packet_fixed,
    create_can_send_packet_variable, gear_name_of, i16_from_le, parse_data_text, parse_id_text,
    parse_distance_from_data, parse_received_can_message, parse_vehicle_status,
    parse_vehicle_status_8byte, verify_checksum, CanFrame, CodecError, VehicleStatus,
    DEFAULT_CAN_ID, FIXED_PACKET_LEN, MAX_EXTENDED_ID, MAX_STANDARD_ID,
};
use can_bridge::SerialConfig;

fn config(can_baud_rate: u32, frame_type: &str, protocol_length: &str, can_mode: &str) -> SerialConfig {
    SerialConfig {
        port: "/dev/ttyUSB0".to_string(),
        baud_rate: 115200,
        can_baud_rate,
        frame_type: frame_type.to_string(),
        protocol_length: protocol_length.to_string(),
        can_mode: can_mode.to_string(),
    }
}

fn sum_mod_256(bytes: &[u8]) -> u8 {
    (bytes.iter().map(|&b| b as u32).sum::<u32>() % 256) as u8
}

#[test]
fn config_packet_whole_layout() {
    let packet = create_can_config_packet(&config(500000, "standard", "fixed", "normal"));
    assert_eq!(
        packet,
        vec![
            0xAA, 0x55, 0x02, 0x03, 0x01, 0, 0, 0, 0, 0, 0, 0, 0, 0x00, 0x00, 0, 0, 0, 0, 0x06
        ]
    );
    let packet = create_can_config_packet(&config(125000, "extended", "variable", "loopback_silent"));
    assert_eq!(
        packet,
        vec![
            0xAA, 0x55, 0x12, 0x07, 0x02, 0, 0, 0, 0, 0, 0, 0, 0, 0x03, 0x00, 0, 0, 0, 0, 0x1E
        ]
    );
}

#[test]
fn config_packet_end_to_end_scenario() {
    let packet = create_can_config_packet(&config(500000, "standard", "fixed", "normal"));
    assert_eq!(&packet[2..4], &[0x02, 0x03]);
    assert_eq!(packet.len(), FIXED_PACKET_LEN);

    let sent = create_can_send_packet_fixed("0x123", "11 22", "standard").unwrap();
    assert_eq!(&sent[10..14], &[0x11, 0x22, 0x00, 0x00]);
    assert_eq!(sent.len(), 20);
}

#[test]
fn config_packet_baud_codes() {
    let table: [(u32, u8); 12] = [
        (5000, 0x0c),
        (10000, 0x0b),
        (20000, 0x0a),
        (50000, 0x09),
        (100000, 0x08),
        (125000, 0x07),
        (200000, 0x06),
        (250000, 0x05),
        (400000, 0x04),
        (500000, 0x03),
        (800000, 0x02),
        (1000000, 0x01),
    ];
    for (rate, code) in table {
        let packet = create_can_config_packet(&config(rate, "standard", "fixed", "normal"));
        assert_eq!(packet[3], code, "rate {}", rate);
    }
    for rate in [0u32, 1, 4999, 500001, 123456, u32::MAX] {
        let packet = create_can_config_packet(&config(rate, "standard", "fixed", "normal"));
        assert_eq!(packet[3], 0x03, "rate {}", rate);
    }
}

#[test]
fn config_packet_mode_codes() {
    for (mode, code) in [
        ("normal", 0x00u8),
        ("silent", 0x01),
        ("loopback", 0x02),
        ("loopback_silent", 0x03),
        ("", 0x00),
        ("Silent", 0x00),
        ("loopback ", 0x00),
    ] {
        let packet = create_can_config_packet(&config(500000, "standard", "fixed", mode));
        assert_eq!(packet[13], code, "mode {:?}", mode);
    }
}

#[test]
fn config_packet_tags_fall_back() {
    let packet = create_can_config_packet(&config(500000, "Extended", "FIXED", "normal"));
    assert_eq!(packet[2], 0x12);
    assert_eq!(packet[4], 0x01);
}

#[test]
fn config_packet_checksum_holds_for_every_setting() {
    for rate in [5000u32, 250000, 1000000, 7] {
        for frame_type in ["standard", "extended"] {
            for format in ["fixed", "variable"] {
                for mode in ["normal", "silent", "loopback", "loopback_silent"] {
                    let packet = create_can_config_packet(&config(rate, frame_type, format, mode));
                    assert_eq!(packet.len(), 20);
                    assert_eq!(packet[19], sum_mod_256(&packet[2..19]));
                    assert!(verify_checksum(&packet));
                }
            }
        }
    }
}

#[test]
fn checksum_of_ranges() {
    let bytes = [0xFFu8, 0xFF, 0x02, 0x10, 0x80, 0x80];
    assert_eq!(checksum_of(&[]), 0);
    assert_eq!(checksum_of(&bytes[..2]), 0xFE);
    assert_eq!(checksum_of(&bytes[2..4]), 0x12);
    assert_eq!(checksum_of(&bytes), 0x10);
    assert_eq!(checksum_of(&[0xFF; 1000]), (255u32 * 1000 % 256) as u8);
}

#[test]
fn verify_checksum_cases() {
    let good = create_can_send_packet_fixed("0x123", "11 22 33 44", "standard").unwrap();
    assert!(verify_checksum(&good));
    assert!(!verify_checksum(&good[..19]));
    let mut bad = good.clone();
    bad[12] ^= 0x01;
    assert!(!verify_checksum(&bad));
    let mut longer = good.clone();
    longer.push(0x77);
    assert!(verify_checksum(&longer));
    // the header is not part of the sum
    let mut other_header = good.clone();
    other_header[0] = 0x00;
    assert!(verify_checksum(&other_header));
}

#[test]
fn fixed_packet_whole_layout() {
    let packet = create_can_send_packet_fixed("0x123", "11 22 33 44", "standard").unwrap();
    assert_eq!(
        packet,
        vec![
            0xAA, 0x55, 0x01, 0x01, 0x01, 0x23, 0x01, 0x00, 0x00, 0x08, 0x11, 0x22, 0x33, 0x44,
            0x00, 0x00, 0x00, 0x00, 0x00, 0xD9
        ]
    );
    let packet = create_can_send_packet_fixed("18C4D2D0", "FFFFFFFFFFFFFFFF", "extended").unwrap();
    assert_eq!(
        packet,
        vec![
            0xAA, 0x55, 0x01, 0x02, 0x01, 0xD0, 0xD2, 0xC4, 0x18, 0x08, 0xFF, 0xFF, 0xFF, 0xFF,
            0xFF, 0xFF, 0xFF, 0xFF, 0x00, 0x82
        ]
    );
}

#[test]
fn variable_packet_whole_layout() {
    assert_eq!(
        create_can_send_packet_variable("0x123", "11 22 33 44 55 66 77 88", "standard").unwrap(),
        vec![0xAA, 0xC8, 0x23, 0x01, 0x11, 0x22, 0x33, 0x44, 0x55, 0x66, 0x77, 0x88, 0x55]
    );
    assert_eq!(
        create_can_send_packet_variable("0x1033021", "11 22", "extended").unwrap(),
        vec![0xAA, 0xE2, 0x21, 0x30, 0x03, 0x01, 0x11, 0x22, 0x55]
    );
    assert_eq!(
        create_can_send_packet_variable("0x7FF", "", "standard").unwrap(),
        vec![0xAA, 0xC0, 0xFF, 0x07, 0x55]
    );
    assert_eq!(
        create_can_send_packet_variable("", "", "extended").unwrap(),
        vec![0xAA, 0xE0, 0xD0, 0xD2, 0xC4, 0x18, 0x55]
    );
}

#[test]
fn variable_packet_length_and_control_nibble() {
    let data = ["", "01", "01 02", "010203", "01 02 03 04", "0102030405", "01 02 03 04 05 06",
        "01020304050607", "01 02 03 04 05 06 07 08"];
    for (n, text) in data.iter().enumerate() {
        let standard = create_can_send_packet_variable("0x7FF", text, "standard").unwrap();
        assert_eq!(standard.len(), 3 + 2 + n);
        assert_eq!((standard[1] & 0x0F) as usize, n);
        assert_eq!(standard[1] & 0xF0, 0xC0);
        let extended = create_can_send_packet_variable("0x1FFFFFFF", text, "extended").unwrap();
        assert_eq!(extended.len(), 3 + 4 + n);
        assert_eq!((extended[1] & 0x0F) as usize, n);
        assert_eq!(extended[1] & 0xF0, 0xE0);
        assert_eq!(extended[extended.len() - 1], 0x55);
    }
}

#[test]
fn format_is_chosen_by_protocol_length() {
    let fixed = create_can_send_packet_fixed("0x123", "11 22", "standard").unwrap();
    let variable = create_can_send_packet_variable("0x123", "11 22", "standard").unwrap();
    assert_eq!(create_can_send_packet("0x123", "11 22", "standard", "fixed").unwrap(), fixed);
    assert_eq!(create_can_send_packet("0x123", "11 22", "standard", "").unwrap(), fixed);
    assert_eq!(create_can_send_packet("0x123", "11 22", "standard", "Variable").unwrap(), fixed);
    assert_eq!(create_can_send_packet("0x123", "11 22", "standard", "variable").unwrap(), variable);
    assert_eq!(
        create_can_send_packet("0x800", "11 22", "standard", "variable"),
        Err(CodecError::IdOutOfRange { id: 0x800, extended: false })
    );
}

#[test]
fn each_error_has_its_input() {
    assert_eq!(
        create_can_send_packet_fixed("0x123", "GG HH", "standard"),
        Err(CodecError::MalformedHex)
    );
    assert_eq!(
        create_can_send_packet_fixed("0x123", "1122334", "standard"),
        Err(CodecError::MalformedHex)
    );
    assert_eq!(
        create_can_send_packet_fixed("0x123", "11 22 33 44 55 66 77 88 99", "standard"),
        Err(CodecError::PayloadTooLong)
    );
    assert_eq!(
        create_can_send_packet_fixed("0xZZ", "11 22", "standard"),
        Err(CodecError::MalformedId)
    );
    assert_eq!(
        create_can_send_packet_fixed("0x800", "11 22", "standard"),
        Err(CodecError::IdOutOfRange { id: 0x800, extended: false })
    );
    assert_eq!(
        create_can_send_packet_variable("0x20000000", "11 22", "extended"),
        Err(CodecError::IdOutOfRange { id: 0x20000000, extended: true })
    );
}

#[test]
fn errors_come_in_order() {
    // bad data is told before a bad identifier
    assert_eq!(create_can_send_packet_fixed("zz", "GG", "standard"), Err(CodecError::MalformedHex));
    // a long payload is told before a bad identifier
    assert_eq!(
        create_can_send_packet_fixed("zz", "112233445566778899", "standard"),
        Err(CodecError::PayloadTooLong)
    );
    // a bad identifier is told before its range
    assert_eq!(
        create_can_send_packet_fixed("100000000", "11", "standard"),
        Err(CodecError::MalformedId)
    );
}

#[test]
fn error_messages() {
    assert_eq!(
        CodecError::IdOutOfRange { id: 0x800, extended: false }.message(),
        "Invalid CAN ID for standard frame: 0x800. Standard frame CAN ID must be <= 0x7FF (11-bit)"
    );
    assert_eq!(
        CodecError::IdOutOfRange { id: 0x20000000, extended: true }.message(),
        "Invalid CAN ID for extended frame: 0x20000000. Extended frame CAN ID must be <= 0x1FFFFFFF (29-bit)"
    );
    assert_eq!(CodecError::PayloadTooLong.message(), "CAN data length cannot exceed 8 bytes");
    assert!(CodecError::MalformedId.message().contains("Invalid CAN ID format"));
    assert!(CodecError::MalformedHex.message().contains("hex"));
}

#[test]
fn data_text_forms() {
    assert_eq!(parse_data_text("11 22 33 44"), Some(vec![0x11, 0x22, 0x33, 0x44]));
    assert_eq!(parse_data_text("AABBCCDD"), Some(vec![0xAA, 0xBB, 0xCC, 0xDD]));
    assert_eq!(parse_data_text("aabb"), Some(vec![0xAA, 0xBB]));
    assert_eq!(parse_data_text(""), Some(vec![]));
    assert_eq!(parse_data_text(" "), Some(vec![]));
    assert_eq!(parse_data_text("1 2 f"), Some(vec![0x01, 0x02, 0x0F]));
    assert_eq!(parse_data_text(" 0FF  000 "), Some(vec![0xFF, 0x00]));
    assert_eq!(parse_data_text("11 22\t33\n44"), Some(vec![0x11, 0x22, 0x33, 0x44]));
    assert_eq!(parse_data_text("+1 +F"), None);
    assert_eq!(parse_data_text("+1+F"), None);
    assert_eq!(parse_data_text("+1 22"), None);
    assert_eq!(parse_data_text("11 +22"), None);
    assert_eq!(parse_data_text("11 100"), None);
    assert_eq!(parse_data_text("11 -1"), None);
    assert_eq!(parse_data_text("11 0x22"), None);
    assert_eq!(parse_data_text("11\t22"), Some(vec![0x11, 0x22]));
    assert_eq!(parse_data_text("11\n22\r\n"), Some(vec![0x11, 0x22]));
    assert_eq!(parse_data_text("11\u{a0}22\u{3000}33"), Some(vec![0x11, 0x22, 0x33]));
    assert_eq!(parse_data_text("\t"), Some(vec![]));
    assert_eq!(parse_data_text("11\n"), Some(vec![0x11]));
    assert_eq!(parse_data_text("1122\n"), None);
    assert_eq!(parse_data_text("1122\t33"), None);
    assert_eq!(parse_data_text("112"), None);
    assert_eq!(parse_data_text("1g"), None);
    assert_eq!(parse_data_text("\u{e9}\u{e9}"), None);
    assert_eq!(parse_data_text("11 \u{e9}"), None);
    let long = parse_data_text("00112233445566778899").unwrap();
    assert_eq!(long.len(), 10);
}

#[test]
fn id_text_forms() {
    assert_eq!(parse_id_text("0x123"), Some(0x123));
    assert_eq!(parse_id_text("0X123"), Some(0x123));
    assert_eq!(parse_id_text("123"), Some(0x123));
    assert_eq!(parse_id_text("abc"), Some(0xABC));
    assert_eq!(parse_id_text(""), Some(DEFAULT_CAN_ID));
    assert_eq!(parse_id_text("0x"), Some(DEFAULT_CAN_ID));
    assert_eq!(parse_id_text("0X"), Some(DEFAULT_CAN_ID));
    assert_eq!(DEFAULT_CAN_ID, 0x18C4D2D0);
    assert_eq!(parse_id_text("0"), Some(0));
    assert_eq!(parse_id_text("0x0x1"), None);
    assert_eq!(parse_id_text("x1"), None);
    assert_eq!(parse_id_text(" 1"), None);
    assert_eq!(parse_id_text("1 "), None);
    assert_eq!(parse_id_text("0x+1F"), Some(0x1F));
    assert_eq!(parse_id_text("+1F"), Some(0x1F));
    assert_eq!(parse_id_text("FFFFFFFF"), Some(0xFFFFFFFF));
    assert_eq!(parse_id_text("100000000"), None);
    assert_eq!(parse_id_text("0x00000000000123"), Some(0x123));
}

#[test]
fn frame_type_is_extended_only_when_it_says_so() {
    for frame_type in ["standard", "", "Extended", "extended ", "remote"] {
        assert_eq!(
            create_can_send_packet_fixed("0x800", "11", frame_type),
            Err(CodecError::IdOutOfRange { id: 0x800, extended: false }),
            "{:?}",
            frame_type
        );
        let ok = create_can_send_packet_fixed("0x7FF", "11", frame_type).unwrap();
        assert_eq!(ok[3], 0x01);
    }
    assert_eq!(create_can_send_packet_fixed("0x800", "11", "extended").unwrap()[3], 0x02);
}

#[test]
fn extended_ids_need_the_extended_kind() {
    assert_eq!(MAX_STANDARD_ID, 0x7FF);
    assert_eq!(MAX_EXTENDED_ID, 0x1FFFFFFF);
    for id in [0x800u32, 0x801, 0xFFFF, 0x10000, 0x18C4D2D0, 0x1FFFFFFE, 0x1FFFFFFF] {
        let text = format!("0x{:X}", id);
        assert!(create_can_send_packet_fixed(&text, "11 22", "extended").is_ok());
        assert_eq!(
            create_can_send_packet_fixed(&text, "11 22", "standard"),
            Err(CodecError::IdOutOfRange { id, extended: false })
        );
        assert!(create_can_send_packet_variable(&text, "11 22", "extended").is_ok());
        assert_eq!(
            create_can_send_packet_variable(&text, "11 22", "standard"),
            Err(CodecError::IdOutOfRange { id, extended: false })
        );
    }
}

#[test]
fn fixed_packet_reads_back() {
    let payloads = ["", "01", "AB CD", "11 22 33", "DE AD BE EF", "0102030405", "01 02 03 04 05 06",
        "FF FF FF FF FF FF FF", "01 83 02 02 F2 00 00 00"];
    for id in [0u32, 1, 0x123, 0x456, 0x7FE, 0x7FF] {
        for text in payloads {
            let packet = create_can_send_packet_fixed(&format!("{:x}", id), text, "standard").unwrap();
            assert_eq!(packet.len(), 20);
            assert_eq!(packet[19], sum_mod_256(&packet[2..19]));
            let (id_text, data, frame_type) = parse_received_can_message(&packet).unwrap();
            assert_eq!(id_text, format!("0x{:08X}", id));
            let mut padded = parse_data_text(text).unwrap();
            padded.resize(8, 0);
            let expected: Vec<String> = padded.iter().map(|b| format!("{:02X}", b)).collect();
            assert_eq!(data, expected.join(" "));
            assert_eq!(frame_type, "standard");
        }
    }
    let packet = create_can_send_packet_fixed("1FFFFFFF", "A1", "extended").unwrap();
    let (id_text, data, frame_type) = parse_received_can_message(&packet).unwrap();
    assert_eq!(id_text, "0x1FFFFFFF");
    assert_eq!(data, "A1 00 00 00 00 00 00 00");
    assert_eq!(frame_type, "extended");
}

#[test]
fn received_packet_edges() {
    let mut packet = vec![
        0xAA, 0x55, 0x01, 0x03, 0x01, 0xFF, 0xFF, 0xFF, 0xFF, 0x03, 0x0A, 0x0B, 0x0C, 0x0D, 0x0E,
        0x0F, 0x10, 0x11, 0x00, 0x00,
    ];
    // the checksum is wrong, the packet is read all the same
    assert!(!verify_checksum(&packet));
    let (id, data, frame_type) = parse_received_can_message(&packet).unwrap();
    assert_eq!(id, "0xFFFFFFFF");
    assert_eq!(data, "0A 0B 0C");
    assert_eq!(frame_type, "unknown");

    packet[9] = 0;
    let (_, data, _) = parse_received_can_message(&packet).unwrap();
    assert_eq!(data, "");

    packet[9] = 8;
    packet.push(0x99);
    let (_, data, _) = parse_received_can_message(&packet).unwrap();
    assert_eq!(data, "0A 0B 0C 0D 0E 0F 10 11");

    packet[9] = 9;
    assert!(parse_received_can_message(&packet).is_none());
    packet[9] = 8;
    packet[1] = 0x54;
    assert!(parse_received_can_message(&packet).is_none());
    packet[1] = 0x55;
    assert!(parse_received_can_message(&packet[..19]).is_none());
    assert!(parse_received_can_message(&[]).is_none());
}

#[test]
fn frame_construction() {
    let frame = CanFrame::new(0x7FF, false, vec![1, 2, 3]).unwrap();
    assert_eq!(frame.id(), 0x7FF);
    assert!(!frame.is_extended());
    assert_eq!(frame.payload(), &vec![1, 2, 3]);
    let copy = frame.clone();
    assert_eq!(copy.encode_fixed(), frame.encode_fixed());
    assert_eq!(frame.encode_variable(), vec![0xAA, 0xC3, 0xFF, 0x07, 1, 2, 3, 0x55]);

    assert_eq!(
        CanFrame::new(0x800, false, vec![]).unwrap_err(),
        CodecError::IdOutOfRange { id: 0x800, extended: false }
    );
    assert_eq!(
        CanFrame::new(0x2000_0000, true, vec![]).unwrap_err(),
        CodecError::IdOutOfRange { id: 0x2000_0000, extended: true }
    );
    assert_eq!(CanFrame::new(0, true, vec![0; 9]).unwrap_err(), CodecError::PayloadTooLong);
    assert_eq!(CanFrame::new(0xFFFF_FFFF, false, vec![0; 9]).unwrap_err(), CodecError::PayloadTooLong);
    assert!(CanFrame::new(0x1FFF_FFFF, true, vec![0; 8]).is_ok());
}

#[test]
fn frame_from_text() {
    let frame = CanFrame::parse("0x18C4D2D0", "01 02", "extended").unwrap();
    assert_eq!(frame.id(), 0x18C4D2D0);
    assert!(frame.is_extended());
    assert_eq!(frame.payload(), &vec![1, 2]);
    assert_eq!(CanFrame::parse("", "zz", "extended").unwrap_err(), CodecError::MalformedHex);
}

#[test]
fn distance_edges() {
    assert_eq!(parse_distance_from_data("01 02 03 04 05 06 07 08"), 0x0708);
    assert_eq!(parse_distance_from_data("FF"), 0);
    assert_eq!(parse_distance_from_data(""), 0);
    assert_eq!(parse_distance_from_data("   "), 0);
    assert_eq!(parse_distance_from_data("FF FF"), 0xFFFF);
    assert_eq!(parse_distance_from_data("1 2"), 0x12);
    assert_eq!(parse_distance_from_data("zz 01 02"), 0x0102);
    assert_eq!(parse_distance_from_data("01 zz"), 0);
    assert_eq!(parse_distance_from_data("FFF FF"), 0);
    assert_eq!(parse_distance_from_data("0 0FFFF"), 0xFFFF);
    assert_eq!(parse_distance_from_data("+7 08"), 0x708);
    assert_eq!(parse_distance_from_data("7 +8"), 0);
    assert_eq!(parse_distance_from_data("ab\tcd"), 0xABCD);
}

#[test]
fn vehicle_status_fields() {
    assert_eq!(
        parse_vehicle_status("04 4B 40 01 00 00 00 2B"),
        Some(VehicleStatus { gear: 4, speed_raw: 0x4B0, steering_raw: 320 })
    );
    assert_eq!(
        parse_vehicle_status("F5 FF FF 7F"),
        Some(VehicleStatus { gear: 5, speed_raw: 0xFFF, steering_raw: 0x7FFF })
    );
    assert_eq!(
        parse_vehicle_status("30 00 00 80 zz"),
        Some(VehicleStatus { gear: 0, speed_raw: 3, steering_raw: i16::MIN })
    );
    assert_eq!(parse_vehicle_status("01 02 03"), None);
    assert_eq!(parse_vehicle_status("01 02 03 1FF"), None);
    assert_eq!(parse_vehicle_status("01020304"), None);
}

#[test]
fn vehicle_status_scenario() {
    let (gear, steering_raw) = parse_vehicle_status_8byte("00 00 00 00 00 00 00 00").unwrap();
    assert_eq!(gear, "disable");
    assert_eq!(steering_raw as f32 * 0.01, 0.0);
    let (gear, steering_raw) = parse_vehicle_status_8byte("04 4B 40 01 00 00 00 2B").unwrap();
    assert_eq!(gear, "D");
    assert_eq!(steering_raw, 320);
    assert!((steering_raw as f32 * 0.01 - 3.2).abs() < 0.01);
}

#[test]
fn gear_names() {
    assert_eq!(gear_name_of(0), "disable");
    assert_eq!(gear_name_of(1), "P");
    assert_eq!(gear_name_of(2), "R");
    assert_eq!(gear_name_of(3), "N");
    assert_eq!(gear_name_of(4), "D");
    for gear in 5u8..=15 {
        assert_eq!(gear_name_of(gear), "Unknown");
    }
    let (gear, _) = parse_vehicle_status_8byte("1F 00 00 00").unwrap();
    assert_eq!(gear, "Unknown");
}

#[test]
fn signed_little_endian_edges() {
    assert_eq!(i16_from_le(0xFF, 0x7F), i16::MAX);
    assert_eq!(i16_from_le(0x00, 0x80), i16::MIN);
    assert_eq!(i16_from_le(0x18, 0xFC), -1000);
    assert_eq!(i16_from_le(0x40, 0x01), 320);
}

#[test]
fn frame_encodes_in_the_chosen_format() {
    let frame = CanFrame::new(0x123, false, vec![0x11, 0x22]).unwrap();
    assert_eq!(frame.encode(false), frame.encode_fixed());
    assert_eq!(frame.encode(true), frame.encode_variable());
    assert_ne!(frame.encode(true), frame.encode(false));
}

#[test]
fn received_data_text_writes_the_payload_again() {
    for text in ["", "7F", "01 83 02 02 F2 00 00 00", "AA 55"] {
        let packet = create_can_send_packet_variable("0x1", text, "standard").unwrap();
        let payload = packet[4..packet.len() - 1].to_vec();
        assert_eq!(parse_data_text(text), Some(payload.clone()));
        let hex: Vec<String> = payload.iter().map(|b| format!("{:02X}", b)).collect();
        assert_eq!(parse_data_text(&hex.join(" ")), Some(payload.clone()));
        assert_eq!(parse_data_text(&hex.concat()), Some(payload));
    }
}

#[test]
fn a_sign_in_the_data_text_is_malformed() {
    for data in ["+1 22", "11 +2", "+1+F", "+A", "-1 22", "11 2-", "1_ 22"] {
        assert_eq!(
            create_can_send_packet_variable("0x123", data, "standard"),
            Err(CodecError::MalformedHex),
            "{:?}",
            data
        );
        assert_eq!(
            create_can_send_packet_fixed("0x123", data, "standard"),
            Err(CodecError::MalformedHex),
            "{:?}",
            data
        );
    }
}

#[test]
fn any_whitespace_separates_the_bytes_of_a_data_text() {
    let spaced = create_can_send_packet_fixed("0x123", "11 22", "standard").unwrap();
    for data in ["11\t22", "11\n22", " 11\r\n22 ", "11\u{2003}22", "\t11 22"] {
        assert_eq!(
            create_can_send_packet_fixed("0x123", data, "standard").unwrap(),
            spaced,
            "{:?}",
            data
        );
    }
    assert_eq!(
        create_can_send_packet_variable("0x123", "11\t22", "standard").unwrap(),
        vec![0xAA, 0xC2, 0x23, 0x01, 0x11, 0x22, 0x55]
    );
}
