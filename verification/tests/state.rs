use can_bridge::state::StateError;
use can_bridge::{AppState, CanMessage, SendMessage};

#[test]
fn default_state_is_idle() {
    let s = AppState::default();
    assert!(!s.channel_open);
    assert!(!s.is_connected);
    assert!(!s.csv_loop_running);
    assert!(!s.auto_drive_running);
    assert!(!s.receive_thread_running);
    assert!(!s.write_thread_running);
    assert!(!s.system_monitor_connected);
    assert!(!s.system_monitor_thread_running);
}

#[test]
fn connect_then_disconnect() {
    let mut s = AppState::default();
    assert_eq!(s.check_send(), Err(StateError::NotConnected));
    assert_eq!(s.connect(), Ok(()));
    assert!(s.is_connected && s.channel_open);
    s.io_thread_started();
    assert!(s.write_thread_running && s.receive_thread_running);
    assert_eq!(s.check_send(), Ok(()));
    assert_eq!(s.connect(), Err(StateError::AlreadyConnected));
    s.disconnect();
    assert_eq!(s, AppState::default());
}

#[test]
fn send_needs_the_channel() {
    let mut s = AppState::default();
    s.is_connected = true;
    assert_eq!(s.check_send(), Err(StateError::ChannelUnavailable));
}

#[test]
fn io_thread_stop_clears_receive_flag_only() {
    let mut s = AppState::default();
    s.connect().unwrap();
    s.io_thread_started();
    s.io_thread_stopped();
    assert!(!s.receive_thread_running);
    assert!(s.write_thread_running);
    assert!(s.is_connected);
}

#[test]
fn drive_needs_connection_and_runs_once() {
    let mut s = AppState::default();
    assert_eq!(s.start_infinite_drive(), Err(StateError::NotConnected));
    assert!(!s.auto_drive_running);
    s.connect().unwrap();
    assert_eq!(s.start_infinite_drive(), Ok(()));
    assert!(s.auto_drive_running);
    assert_eq!(s.start_infinite_drive(), Err(StateError::DriveAlreadyRunning));
    s.stop_infinite_drive();
    assert!(!s.auto_drive_running);
    s.auto_drive_running = true;
    s.is_connected = false;
    assert_eq!(s.start_infinite_drive(), Err(StateError::DriveAlreadyRunning));
}

#[test]
fn replay_flag() {
    let mut s = AppState::default();
    s.start_csv_loop();
    assert!(s.csv_loop_running);
    s.stop_csv_loop();
    assert!(!s.csv_loop_running);
}

#[test]
fn system_monitor_connects_once() {
    let mut s = AppState::default();
    assert_eq!(s.connect_system_monitor(), Ok(()));
    assert!(s.system_monitor_connected && s.system_monitor_thread_running);
    assert_eq!(s.connect_system_monitor(), Err(StateError::MonitorAlreadyConnected));
    s.disconnect_system_monitor();
    assert_eq!(s, AppState::default());
}

#[test]
fn shutdown_stops_everything() {
    let mut s = AppState::default();
    s.connect().unwrap();
    s.io_thread_started();
    s.start_csv_loop();
    s.start_infinite_drive().unwrap();
    s.connect_system_monitor().unwrap();
    s.shutdown();
    assert_eq!(s, AppState::default());
}

#[test]
fn state_error_messages() {
    assert_eq!(StateError::AlreadyConnected.message(), "Already connected");
    assert_eq!(StateError::NotConnected.message(), "Not connected");
    assert_eq!(StateError::ChannelUnavailable.message(), "Send channel not available");
    assert_eq!(StateError::DriveAlreadyRunning.message(), "Drive loop already running");
    assert_eq!(StateError::MonitorAlreadyConnected.message(), "System Monitor already connected");
}

#[test]
fn plain_records_hold_their_fields() {
    let m = CanMessage {
        id: "0x00000123".to_string(),
        data: "11 22".to_string(),
        timestamp: "12:00:00.000".to_string(),
        direction: "received".to_string(),
        frame_type: "standard".to_string(),
    };
    assert_eq!(m.clone().id, "0x00000123");
    let s = SendMessage { packet: vec![0xAA, 0x55] };
    assert_eq!(s.clone().packet, vec![0xAA, 0x55]);
}
