use can_session::frame::ChannelConfig;
use can_session::frame::Frame;
use can_session::frame::SendType;
use can_session::ports::KeyEvent;
use can_session::ports::is_stop_combo;

#[test]
fn payload_truncates_to_data_len() {
    let f = Frame::new(0x1, 3, [7, 8, 9, 1, 2, 3, 4, 5]);
    assert_eq!(f.payload(), vec![7, 8, 9]);
}

#[test]
fn payload_empty_when_len_zero() {
    let f = Frame::new(0x20, 0, [1, 2, 3, 4, 5, 6, 7, 8]);
    assert_eq!(f.payload(), Vec::<u8>::new());
}

#[test]
fn payload_full_when_len_eight() {
    let f = Frame::new(0x7FF, 8, [1, 2, 3, 4, 5, 6, 7, 8]);
    assert_eq!(f.payload(), vec![1, 2, 3, 4, 5, 6, 7, 8]);
}

#[test]
fn new_clears_flags() {
    let f = Frame::new(0x1, 1, [7, 0, 0, 0, 0, 0, 0, 0]);
    assert_eq!(f.id, 0x1);
    assert_eq!(f.timestamp, 0);
    assert!(!f.time_flag);
    assert_eq!(f.send_type, SendType::Normal);
    assert!(!f.remote_flag);
    assert!(!f.extern_flag);
    assert_eq!(f.data_len, 1);
    assert_eq!(f.data, [7, 0, 0, 0, 0, 0, 0, 0]);
}

#[test]
fn bitrate_config_values() {
    let c = ChannelConfig::bitrate_250k();
    assert_eq!(c.acc_code, 0);
    assert_eq!(c.acc_mask, 0xFFFF_FFFF);
    assert_eq!(c.filter_mode, 1);
    assert_eq!(c.timing0, 0x01);
    assert_eq!(c.timing1, 0x1C);
    assert_eq!(c.mode, 0);
}

#[test]
fn stop_combo_is_control_x() {
    assert!(is_stop_combo(&KeyEvent { ch: 'x', ctrl: true }));
    assert!(!is_stop_combo(&KeyEvent { ch: 'x', ctrl: false }));
    assert!(!is_stop_combo(&KeyEvent { ch: 'y', ctrl: true }));
    assert!(!is_stop_combo(&KeyEvent { ch: 'q', ctrl: false }));
}
