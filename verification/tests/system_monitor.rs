use can_bridge::system_monitor_thread::{process_system_monitor_buffer, MONITOR_PACKET_LEN};

fn monitor_packet(fill: u8) -> Vec<u8> {
    let mut p = vec![0xAA, 0x55];
    p.extend_from_slice(&[fill; 16]);
    p
}

#[test]
fn monitor_packets_come_in_order() {
    assert_eq!(MONITOR_PACKET_LEN, 18);
    let mut buffer = [monitor_packet(1), monitor_packet(2)].concat();
    let packets = process_system_monitor_buffer(&mut buffer);
    assert_eq!(packets, vec![monitor_packet(1), monitor_packet(2)]);
    assert!(buffer.is_empty());
}

#[test]
fn monitor_garbage_before_a_header_is_dropped() {
    let mut buffer = vec![0x00, 0x55, 0xAA];
    buffer.extend_from_slice(&monitor_packet(7));
    buffer.extend_from_slice(&[0xAA, 0x55, 0x01]);
    let packets = process_system_monitor_buffer(&mut buffer);
    assert_eq!(packets, vec![monitor_packet(7)]);
    assert_eq!(buffer, vec![0xAA, 0x55, 0x01]);
}

#[test]
fn monitor_packet_may_hold_a_header() {
    let mut p = monitor_packet(3);
    p[4] = 0xAA;
    p[5] = 0x55;
    let mut buffer = p.clone();
    assert_eq!(process_system_monitor_buffer(&mut buffer), vec![p]);
    assert!(buffer.is_empty());
}

#[test]
fn monitor_buffer_without_a_header() {
    let mut buffer = vec![0x01, 0x02, 0x03];
    assert!(process_system_monitor_buffer(&mut buffer).is_empty());
    assert!(buffer.is_empty());

    let mut buffer = vec![0x01, 0x02, 0xAA];
    assert!(process_system_monitor_buffer(&mut buffer).is_empty());
    assert_eq!(buffer, vec![0xAA]);

    let mut buffer = vec![0x07];
    assert!(process_system_monitor_buffer(&mut buffer).is_empty());
    assert_eq!(buffer, vec![0x07]);

    let mut buffer: Vec<u8> = Vec::new();
    assert!(process_system_monitor_buffer(&mut buffer).is_empty());
    assert!(buffer.is_empty());
}

#[test]
fn monitor_split_packet_waits() {
    let p = monitor_packet(9);
    let mut buffer = p[..17].to_vec();
    assert!(process_system_monitor_buffer(&mut buffer).is_empty());
    assert_eq!(buffer, p[..17].to_vec());
    buffer.push(p[17]);
    assert_eq!(process_system_monitor_buffer(&mut buffer), vec![p]);
}
