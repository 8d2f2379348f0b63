use can_bridge::infinite_loop::{control_payload_of, create_can_data};
use can_bridge::vehicle_control::{
    extract_vehicle_control, i16_from_be, parse_can_data_hex, parse_vehicle_control_data,
};

#[test]
fn test_parse_vehicle_control_data() {
    let hex_data: [u8; 4] = [0x0B, 0xB8, 0x46, 0x50];
    match parse_vehicle_control_data(&hex_data) {
        Ok(control) => {
            println!("  linear velocity (mm/s): {}", control.linear_velocity_mms);
            println!("  steering (mdeg): {}", control.steering_angle_mdeg);
            println!("  gear: {}", control.gear_name);

            assert_eq!(control.linear_velocity_mms, 3000);
            assert_eq!(control.gear_name, "D");
            let steering_angle = control.steering_angle_mdeg as f32 * 0.001;
            let expected_angle = 18.0;
            assert!((steering_angle - expected_angle).abs() < 0.0001);
        }
        Err(e) => panic!("parse failed: {}", e),
    }

    let hex_data2: [u8; 4] = [0xF4, 0x48, 0xAA, 0x10];
    match parse_vehicle_control_data(&hex_data2) {
        Ok(control) => {
            assert_eq!(control.linear_velocity_mms, -3000);
            assert_eq!(control.gear_name, "R");
            let steering_angle = control.steering_angle_mdeg as f32 * 0.001;
            let expected_angle = -22.0;
            assert!((steering_angle - expected_angle).abs() < 0.0001);
        }
        Err(e) => panic!("parse failed: {}", e),
    }
}

#[test]
fn control_data_at_rest_is_gear_p() {
    let control = parse_vehicle_control_data(&[0x00, 0x00, 0x00, 0x01, 0xFF]).unwrap();
    assert_eq!(control.linear_velocity_mms, 0);
    assert_eq!(control.steering_angle_mdeg, 1);
    assert_eq!(control.gear_name, "P");
}

#[test]
fn control_data_of_three_bytes_is_refused() {
    let err = parse_vehicle_control_data(&[0x0B, 0xB8, 0x46]).unwrap_err();
    assert_eq!(err, "输入数据长度必须至少是 4 字节");
}

#[test]
fn signed_big_endian_edges() {
    assert_eq!(i16_from_be(0x7F, 0xFF), i16::MAX);
    assert_eq!(i16_from_be(0x80, 0x00), i16::MIN);
    assert_eq!(i16_from_be(0xFF, 0xFF), -1);
    assert_eq!(i16_from_be(0x00, 0x00), 0);
}

#[test]
fn hex_payload_with_spaces() {
    assert_eq!(parse_can_data_hex("0B B8 46 50").unwrap(), vec![0x0B, 0xB8, 0x46, 0x50]);
}

#[test]
fn hex_payload_contiguous() {
    assert_eq!(parse_can_data_hex("0BB84650").unwrap(), vec![0x0B, 0xB8, 0x46, 0x50]);
    assert_eq!(parse_can_data_hex("").unwrap(), Vec::<u8>::new());
    assert_eq!(parse_can_data_hex("   ").unwrap(), Vec::<u8>::new());
}

#[test]
fn hex_payload_drops_hex_marks() {
    assert_eq!(parse_can_data_hex("0x0B 0xB8").unwrap(), vec![0x0B, 0xB8]);
    assert_eq!(parse_can_data_hex("0X0B0XB8").unwrap(), vec![0x0B, 0xB8]);
    assert_eq!(parse_can_data_hex("0 x12").unwrap(), vec![0x12]);
}

#[test]
fn hex_payload_marks_are_dropped_in_one_sweep() {
    // "00xx" loses the "0x" in its middle; the "0x" that is left stays.
    assert_eq!(parse_can_data_hex("00xx").unwrap_err(), "Invalid hex character");
    assert_eq!(parse_can_data_hex("00x1").unwrap(), vec![0x01]);
}

#[test]
fn hex_payload_of_odd_length() {
    assert_eq!(parse_can_data_hex("ABC").unwrap_err(), "十六进制字符串长度必须是偶数");
    assert_eq!(parse_can_data_hex("A B C").unwrap_err(), "十六进制字符串长度必须是偶数");
}

#[test]
fn hex_payload_with_bad_digit() {
    assert_eq!(parse_can_data_hex("GG").unwrap_err(), "Invalid hex character");
    assert_eq!(parse_can_data_hex("12-4").unwrap_err(), "Invalid hex character");
    assert_eq!(parse_can_data_hex("\u{e9}").unwrap_err(), "Invalid hex character");
}

#[test]
fn hex_payload_first_fault_wins() {
    assert_eq!(parse_can_data_hex("GG\u{20ac}a").unwrap_err(), "Invalid hex character");
    assert_eq!(
        parse_can_data_hex("GG\u{20ac}ab").unwrap_err(),
        "十六进制字符串长度必须是偶数"
    );
    assert_eq!(
        parse_can_data_hex("12\u{20ac}aGG").unwrap_err(),
        "Failed to convert byte chunk to string"
    );
}

#[test]
fn hex_payload_with_cut_character() {
    assert_eq!(
        parse_can_data_hex("\u{20ac}a").unwrap_err(),
        "Failed to convert byte chunk to string"
    );
}

#[test]
fn hex_payload_accepts_plus_sign_in_a_pair() {
    assert_eq!(parse_can_data_hex("+A").unwrap(), vec![0x0A]);
    assert_eq!(parse_can_data_hex("A+").unwrap_err(), "Invalid hex character");
}

#[test]
fn extract_control_from_text() {
    let control = extract_vehicle_control("0B B8 46 50").unwrap();
    assert_eq!(control.linear_velocity_mms, 3000);
    assert_eq!(control.steering_angle_mdeg, 18000);
    assert_eq!(control.gear_name, "D");
}

#[test]
fn extract_control_failures() {
    assert_eq!(
        extract_vehicle_control("0B B").unwrap_err(),
        "Failed to parse CAN data: 十六进制字符串长度必须是偶数"
    );
    assert_eq!(
        extract_vehicle_control("0B ZZ").unwrap_err(),
        "Failed to parse CAN data: Invalid hex character"
    );
    assert_eq!(
        extract_vehicle_control("0B B8").unwrap_err(),
        "Failed to parse control data: 输入数据长度必须至少是 4 字节"
    );
}

#[test]
fn control_payload_layout() {
    assert_eq!(control_payload_of(1500, 0), vec![0x05, 0xDC, 0, 0, 0, 0, 0, 0]);
    assert_eq!(control_payload_of(-3000, -22000), vec![0xF4, 0x48, 0xAA, 0x10, 0, 0, 0, 0]);
    assert_eq!(create_can_data(3000, 18000), "0BB8465000000000");
    assert_eq!(create_can_data(0, 0), "0000000000000000");
    assert_eq!(create_can_data(-1, i16::MIN), "FFFF800000000000");
}

#[test]
fn control_payload_reads_back() {
    for &(speed, steering) in
        [(0i16, 0i16), (1500, 10000), (-3000, -22000), (i16::MAX, i16::MIN), (-1, 1)].iter()
    {
        let control = extract_vehicle_control(&create_can_data(speed, steering)).unwrap();
        assert_eq!(control.linear_velocity_mms, speed);
        assert_eq!(control.steering_angle_mdeg, steering);
    }
}
