use can_session::activities::run_receiver;
use can_session::activities::run_transmitter;
use can_session::activities::run_watcher;
use can_session::driver::Call;
use can_session::fake::FakeDriver;
use can_session::fake::FakeFlag;
use can_session::fake::FakePacer;
use can_session::fake::FakeSource;
use can_session::fake::VecSink;
use can_session::frame::Frame;
use can_session::ports::KeyEvent;

fn count_closes(calls: &[Call]) -> usize {
    calls.iter().filter(|c| matches!(c, Call::Close { .. })).count()
}

#[test]
fn transmitter_sends_full_plan() {
    let mut driver = FakeDriver::all_ok(Vec::new());
    let mut pacer = FakePacer { naps: Vec::new() };
    let mut sink = VecSink::new();
    let (sent_ok, _) = run_transmitter(&mut driver, &mut pacer, &mut sink, 4, 0, 0, 10);
    assert_eq!(sent_ok, 255);
    assert_eq!(driver.calls.len(), 255);
    for (j, call) in driver.calls.iter().enumerate() {
        match call {
            Call::Transmit { dev_type, dev_index, channel, frame, ok } => {
                assert_eq!(*dev_type, 4);
                assert_eq!(*dev_index, 0);
                assert_eq!(*channel, 0);
                assert!(*ok);
                assert_eq!(frame.id, 0x1);
                assert_eq!(frame.data_len, 1);
                assert_eq!(frame.data[0] as usize, j + 1);
                assert_eq!(&frame.data[1..], &[0, 0, 0, 0, 0, 0, 0]);
            }
            other => panic!("unexpected call {:?}", other),
        }
    }
    assert_eq!(count_closes(&driver.calls), 0);
    assert_eq!(pacer.naps, vec![10u64; 255]);
    assert_eq!(sink.sent.len(), 255);
    for (j, (value, ok)) in sink.sent.iter().enumerate() {
        assert_eq!(*value as usize, j + 1);
        assert!(*ok);
    }
    assert!(sink.received.is_empty());
}

#[test]
fn transmitter_completes_plan_even_when_sends_fail() {
    let mut driver = FakeDriver::all_ok(Vec::new());
    driver.transmit_ok = false;
    let mut pacer = FakePacer { naps: Vec::new() };
    let mut sink = VecSink::new();
    let (sent_ok, _) = run_transmitter(&mut driver, &mut pacer, &mut sink, 4, 0, 0, 10);
    assert_eq!(sent_ok, 0);
    assert_eq!(driver.calls.len(), 255);
    assert!(
        driver.calls.iter().all(|c| matches!(c, Call::Transmit { ok: false, .. }))
    );
    assert_eq!(sink.sent.len(), 255);
    for (_, ok) in sink.sent.iter() {
        assert!(!*ok);
    }
}

#[test]
fn receiver_reports_frames_until_cancelled() {
    let frame = Frame::new(0x1, 1, [7, 0, 0, 0, 0, 0, 0, 0]);
    let mut driver = FakeDriver::all_ok(vec![vec![frame]]);
    let mut flag = FakeFlag::new(false, 2);
    let mut pacer = FakePacer { naps: Vec::new() };
    let mut sink = VecSink::new();
    run_receiver(&mut driver, &mut flag, &mut pacer, &mut sink, 4, 0, 0, 500, 5);
    assert!(flag.set_now);
    // One receive call per poll that still read false: bounded by the
    // scripted patience of the flag; every poll asks for one frame on
    // channel 0 with the given timeout.
    assert_eq!(driver.calls.len(), 2);
    for call in driver.calls.iter() {
        assert_eq!(
            *call,
            Call::Receive { dev_type: 4, dev_index: 0, channel: 0, max_frames: 1, timeout_ms: 500 }
        );
    }
    assert_eq!(sink.received, vec![(0x1, vec![7])]);
    assert_eq!(pacer.naps, vec![5u64, 5]);
}

#[test]
fn receiver_exits_at_once_when_flag_already_set() {
    let mut driver = FakeDriver::all_ok(vec![vec![Frame::new(0x1, 1, [9, 0, 0, 0, 0, 0, 0, 0])]]);
    let mut flag = FakeFlag::new(true, 0);
    let mut pacer = FakePacer { naps: Vec::new() };
    let mut sink = VecSink::new();
    run_receiver(&mut driver, &mut flag, &mut pacer, &mut sink, 4, 0, 0, 500, 5);
    assert!(driver.calls.is_empty());
    assert!(sink.received.is_empty());
    assert!(pacer.naps.is_empty());
}

#[test]
fn watcher_raises_flag_on_stop_combo() {
    let mut flag = FakeFlag::new(false, 10);
    let mut source = FakeSource::from_script(vec![
        None,
        Some(KeyEvent { ch: 'y', ctrl: true }),
        Some(KeyEvent { ch: 'x', ctrl: false }),
        Some(KeyEvent { ch: 'x', ctrl: true }),
    ]);
    run_watcher(&mut flag, &mut source, 100);
    assert!(flag.set_now);
    assert!(source.events.is_empty());
    assert_eq!(source.handed.len(), 4);
    assert_eq!(source.handed.last(), Some(&Some(KeyEvent { ch: 'x', ctrl: true })));
    // Three polls read false before the stop combination arrived.
    assert_eq!(flag.auto_after, 6);
}

#[test]
fn watcher_exits_without_reading_when_flag_already_set() {
    let mut flag = FakeFlag::new(true, 0);
    let mut source = FakeSource::from_script(vec![Some(KeyEvent { ch: 'x', ctrl: true })]);
    run_watcher(&mut flag, &mut source, 100);
    assert!(flag.set_now);
    assert_eq!(source.events.len(), 1);
    assert!(source.handed.is_empty());
}

#[test]
fn flag_stays_set_once_raised() {
    let mut flag = FakeFlag::new(false, 1);
    assert!(!can_session::ports::CancelFlag::poll(&mut flag));
    assert!(can_session::ports::CancelFlag::poll(&mut flag));
    assert!(can_session::ports::CancelFlag::poll(&mut flag));
    can_session::ports::CancelFlag::raise(&mut flag);
    assert!(can_session::ports::CancelFlag::poll(&mut flag));
    assert!(flag.set_now);
}
