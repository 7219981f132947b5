use can_session::driver::Call;
use can_session::driver::DriverError;
use can_session::fake::FakeDriver;
use can_session::fake::FakeFlag;
use can_session::fake::FakePacer;
use can_session::fake::FakeSource;
use can_session::fake::VecSink;
use can_session::frame::ChannelConfig;
use can_session::frame::Frame;
use can_session::ports::KeyEvent;
use can_session::session::RunTiming;
use can_session::session::Session;

fn count_closes(calls: &[Call]) -> usize {
    calls.iter().filter(|c| matches!(c, Call::Close { .. })).count()
}

fn transmit_frames(calls: &[Call]) -> Vec<Frame> {
    calls
        .iter()
        .filter_map(|c| match c {
            Call::Transmit { frame, .. } => Some(*frame),
            _ => None,
        })
        .collect()
}

fn stop_after_50ms_source() -> FakeSource {
    FakeSource::from_script(vec![None, Some(KeyEvent { ch: 'x', ctrl: true })])
}

fn successful_setup_calls(config: ChannelConfig) -> Vec<Call> {
    vec![
        Call::Open { dev_type: 4, dev_index: 0, ok: true },
        Call::Init { dev_type: 4, dev_index: 0, channel: 0, config, ok: true },
        Call::Init { dev_type: 4, dev_index: 0, channel: 1, config, ok: true },
        Call::Start { dev_type: 4, dev_index: 0, channel: 0, ok: true },
        Call::Start { dev_type: 4, dev_index: 0, channel: 1, ok: true },
    ]
}

#[test]
fn setup_records_ordered_driver_calls() {
    let mut session = Session::new(FakeDriver::all_ok(Vec::new()), 4, 0);
    let config = ChannelConfig::bitrate_250k();
    assert!(session.open_device().is_ok());
    assert!(session.configure_channel(0, &config).is_ok());
    assert!(session.configure_channel(1, &config).is_ok());
    assert!(session.start_channel(0).is_ok());
    assert!(session.start_channel(1).is_ok());
    assert_eq!(session.driver.calls, successful_setup_calls(config));
}

#[test]
fn full_run_end_to_end() {
    // The driver returns one frame with id 0x1 and payload [7] on the first
    // receive call and nothing afterwards; the operator stops the session
    // shortly after the transmit plan is done.
    let inbound = Frame::new(0x1, 1, [7, 0, 0, 0, 0, 0, 0, 0]);
    let mut session = Session::new(FakeDriver::all_ok(vec![vec![inbound]]), 4, 0);
    let config = ChannelConfig::bitrate_250k();
    let mut flag = FakeFlag::new(false, 3);
    let mut source = stop_after_50ms_source();
    let mut sink = VecSink::new();
    let mut pacer = FakePacer { naps: Vec::new() };
    let timing = RunTiming::standard();
    let (outcome, _, _) =
        session.execute(&config, &mut flag, &mut source, &mut sink, &mut pacer, 0, 0, &timing);
    assert_eq!(outcome, Ok(true));
    assert!(session.closed);
    assert!(flag.set_now);

    // The receiver reported exactly the one inbound frame, truncated to its
    // payload length.
    assert_eq!(sink.received, vec![(0x1, vec![7])]);

    // The transmitter sent exactly 255 frames with strictly increasing
    // single payload bytes, all on channel 0 of device (4, 0).
    let sent = transmit_frames(&session.driver.calls);
    assert_eq!(sent.len(), 255);
    for (j, f) in sent.iter().enumerate() {
        assert_eq!(f.id, 0x1);
        assert_eq!(f.data_len, 1);
        assert_eq!(f.data[0] as usize, j + 1);
    }
    assert!(session.driver.calls.iter().all(|c| match c {
        Call::Transmit { dev_type, dev_index, channel, .. } =>
            *dev_type == 4 && *dev_index == 0 && *channel == 0,
        _ => true,
    }));
    assert_eq!(sink.sent.len(), 255);

    // Setup ran in order: both channels configured before either start.
    assert_eq!(&session.driver.calls[..5], &successful_setup_calls(config)[..]);

    // The device was closed exactly once, after everything else.
    assert_eq!(count_closes(&session.driver.calls), 1);
    assert_eq!(
        session.driver.calls.last(),
        Some(&Call::Close { dev_type: 4, dev_index: 0, ok: true })
    );
}

#[test]
fn open_failure_leaves_device_untouched() {
    let mut driver = FakeDriver::all_ok(Vec::new());
    driver.open_ok = false;
    let mut session = Session::new(driver, 4, 0);
    let config = ChannelConfig::bitrate_250k();
    let mut flag = FakeFlag::new(false, 0);
    let mut source = stop_after_50ms_source();
    let mut sink = VecSink::new();
    let mut pacer = FakePacer { naps: Vec::new() };
    let timing = RunTiming::standard();
    let (outcome, _, _) =
        session.execute(&config, &mut flag, &mut source, &mut sink, &mut pacer, 0, 0, &timing);
    assert_eq!(outcome, Err(DriverError::OpenFailed));
    assert_eq!(session.driver.calls, vec![Call::Open { dev_type: 4, dev_index: 0, ok: false }]);
    assert_eq!(count_closes(&session.driver.calls), 0);
    assert!(!session.closed);
    assert!(flag.set_now);
}

#[test]
fn init_failure_on_channel_1_still_closes_once() {
    let mut driver = FakeDriver::all_ok(Vec::new());
    driver.init1_ok = false;
    let mut session = Session::new(driver, 4, 0);
    let config = ChannelConfig::bitrate_250k();
    let mut flag = FakeFlag::new(false, 0);
    let mut source = stop_after_50ms_source();
    let mut sink = VecSink::new();
    let mut pacer = FakePacer { naps: Vec::new() };
    let timing = RunTiming::standard();
    let (outcome, _, _) =
        session.execute(&config, &mut flag, &mut source, &mut sink, &mut pacer, 0, 0, &timing);
    assert_eq!(outcome, Err(DriverError::InitFailed { channel: 1 }));
    assert_eq!(
        session.driver.calls,
        vec![
            Call::Open { dev_type: 4, dev_index: 0, ok: true },
            Call::Init { dev_type: 4, dev_index: 0, channel: 0, config, ok: true },
            Call::Init { dev_type: 4, dev_index: 0, channel: 1, config, ok: false },
            Call::Close { dev_type: 4, dev_index: 0, ok: true },
        ]
    );
    assert_eq!(count_closes(&session.driver.calls), 1);
    assert!(transmit_frames(&session.driver.calls).is_empty());
    assert!(sink.received.is_empty());
    assert!(sink.sent.is_empty());
    assert!(session.closed);
}

#[test]
fn init_failure_on_channel_0_aborts_before_channel_1() {
    let mut driver = FakeDriver::all_ok(Vec::new());
    driver.init0_ok = false;
    let mut session = Session::new(driver, 4, 0);
    let config = ChannelConfig::bitrate_250k();
    let mut flag = FakeFlag::new(false, 0);
    let mut source = stop_after_50ms_source();
    let mut sink = VecSink::new();
    let mut pacer = FakePacer { naps: Vec::new() };
    let timing = RunTiming::standard();
    let (outcome, _, _) =
        session.execute(&config, &mut flag, &mut source, &mut sink, &mut pacer, 0, 0, &timing);
    assert_eq!(outcome, Err(DriverError::InitFailed { channel: 0 }));
    assert_eq!(
        session.driver.calls,
        vec![
            Call::Open { dev_type: 4, dev_index: 0, ok: true },
            Call::Init { dev_type: 4, dev_index: 0, channel: 0, config, ok: false },
            Call::Close { dev_type: 4, dev_index: 0, ok: true },
        ]
    );
    assert_eq!(count_closes(&session.driver.calls), 1);
}

#[test]
fn start_failure_on_channel_1_still_closes_once() {
    let mut driver = FakeDriver::all_ok(Vec::new());
    driver.start1_ok = false;
    let mut session = Session::new(driver, 4, 0);
    let config = ChannelConfig::bitrate_250k();
    let mut flag = FakeFlag::new(false, 0);
    let mut source = stop_after_50ms_source();
    let mut sink = VecSink::new();
    let mut pacer = FakePacer { naps: Vec::new() };
    let timing = RunTiming::standard();
    let (outcome, _, _) =
        session.execute(&config, &mut flag, &mut source, &mut sink, &mut pacer, 0, 0, &timing);
    assert_eq!(outcome, Err(DriverError::StartFailed { channel: 1 }));
    assert_eq!(
        session.driver.calls,
        vec![
            Call::Open { dev_type: 4, dev_index: 0, ok: true },
            Call::Init { dev_type: 4, dev_index: 0, channel: 0, config, ok: true },
            Call::Init { dev_type: 4, dev_index: 0, channel: 1, config, ok: true },
            Call::Start { dev_type: 4, dev_index: 0, channel: 0, ok: true },
            Call::Start { dev_type: 4, dev_index: 0, channel: 1, ok: false },
            Call::Close { dev_type: 4, dev_index: 0, ok: true },
        ]
    );
    assert_eq!(count_closes(&session.driver.calls), 1);
    assert!(transmit_frames(&session.driver.calls).is_empty());
}

#[test]
fn start_failure_on_channel_0_aborts_before_channel_1() {
    let mut driver = FakeDriver::all_ok(Vec::new());
    driver.start0_ok = false;
    let mut session = Session::new(driver, 4, 0);
    let config = ChannelConfig::bitrate_250k();
    let mut flag = FakeFlag::new(false, 0);
    let mut source = stop_after_50ms_source();
    let mut sink = VecSink::new();
    let mut pacer = FakePacer { naps: Vec::new() };
    let timing = RunTiming::standard();
    let (outcome, _, _) =
        session.execute(&config, &mut flag, &mut source, &mut sink, &mut pacer, 0, 0, &timing);
    assert_eq!(outcome, Err(DriverError::StartFailed { channel: 0 }));
    assert_eq!(
        session.driver.calls,
        vec![
            Call::Open { dev_type: 4, dev_index: 0, ok: true },
            Call::Init { dev_type: 4, dev_index: 0, channel: 0, config, ok: true },
            Call::Init { dev_type: 4, dev_index: 0, channel: 1, config, ok: true },
            Call::Start { dev_type: 4, dev_index: 0, channel: 0, ok: false },
            Call::Close { dev_type: 4, dev_index: 0, ok: true },
        ]
    );
    assert_eq!(count_closes(&session.driver.calls), 1);
}

#[test]
fn close_failure_is_reported_not_escalated() {
    let mut driver = FakeDriver::all_ok(Vec::new());
    driver.close_ok = false;
    let mut session = Session::new(driver, 4, 0);
    let config = ChannelConfig::bitrate_250k();
    let mut flag = FakeFlag::new(false, 1);
    let mut source = stop_after_50ms_source();
    let mut sink = VecSink::new();
    let mut pacer = FakePacer { naps: Vec::new() };
    let timing = RunTiming::standard();
    let (outcome, _, _) =
        session.execute(&config, &mut flag, &mut source, &mut sink, &mut pacer, 0, 0, &timing);
    assert_eq!(outcome, Ok(false));
    assert!(session.closed);
    assert_eq!(count_closes(&session.driver.calls), 1);
    assert_eq!(
        session.driver.calls.last(),
        Some(&Call::Close { dev_type: 4, dev_index: 0, ok: false })
    );
}

#[test]
fn run_pacing_matches_plan_and_polls() {
    let mut session = Session::new(FakeDriver::all_ok(Vec::new()), 4, 0);
    let config = ChannelConfig::bitrate_250k();
    let mut flag = FakeFlag::new(false, 2);
    let mut source = stop_after_50ms_source();
    let mut sink = VecSink::new();
    let mut pacer = FakePacer { naps: Vec::new() };
    let timing = RunTiming::standard();
    let (outcome, _, _) =
        session.execute(&config, &mut flag, &mut source, &mut sink, &mut pacer, 0, 0, &timing);
    assert_eq!(outcome, Ok(true));
    // 255 transmit pacing sleeps of 10 ms, then one 5 ms sleep per receive
    // poll that still read the flag as clear.
    assert_eq!(pacer.naps.len(), 255 + 2);
    assert!(pacer.naps[..255].iter().all(|ms| *ms == 10));
    assert!(pacer.naps[255..].iter().all(|ms| *ms == 5));
}
