//! The three concurrent activities of a running session, written as loops
//! over the capability traits: the transmitter sends a fixed finite plan, the
//! receiver polls for inbound frames until cancellation, and the watcher
//! turns the stop key combination into the cancellation flag.

use vstd::prelude::*;

use crate::driver::Call;
use crate::driver::Driver;
use crate::driver::lemma_transmit_only_run;
use crate::driver::successes_in;
use crate::frame::Frame;
use crate::frame::SendType;
use crate::ports::CancelFlag;
use crate::ports::CancelSource;
use crate::ports::FrameSink;
use crate::ports::KeyEvent;
use crate::ports::Pacer;
use crate::ports::is_stop_combo;
use crate::ports::opt_is_stop;

verus! {

/// How many frames the transmit plan holds.
pub const PLAN_LEN: usize = 255;

/// Identifier carried by every planned frame.
pub const PLAN_ID: u32 = 0x1;

/// Frame number `v - 1` of the transmit plan carries identifier 1, a single
/// payload byte holding `v`, and every flag clear.
pub open spec fn plan_frame_ok(f: Frame, v: int) -> bool {
    &&& f.id == PLAN_ID
    &&& f.timestamp == 0
    &&& f.time_flag == false
    &&& f.send_type == SendType::Normal
    &&& f.remote_flag == false
    &&& f.extern_flag == false
    &&& f.data_len == 1
    &&& f.data@.len() == 8
    &&& f.data@[0] == v
    &&& forall|i: int| 1 <= i < 8 ==> f.data@[i] == 0
}

/// A frame sequence is the transmit plan: 255 frames whose single payload
/// byte strictly increases 1 through 255.
pub open spec fn is_plan(s: Seq<Frame>) -> bool {
    &&& s.len() == PLAN_LEN
    &&& forall|j: int| 0 <= j < s.len() ==> plan_frame_ok(#[trigger] s[j], j + 1)
}

/// What the transmitter adds to the driver log: one transmit call per plan
/// frame, in plan order, on the given device and channel, and nothing else.
pub open spec fn tx_delta_ok(
    delta: Seq<Call>,
    dev_type: u32,
    dev_index: u32,
    channel: u32,
) -> bool {
    &&& delta.len() == PLAN_LEN
    &&& forall|j: int|
        0 <= j < delta.len() ==> ((#[trigger] delta[j]) matches Call::Transmit {
            dev_type: dt,
            dev_index: di,
            channel: ch,
            frame,
            ok: _,
        } && dt == dev_type && di == dev_index && ch == channel && plan_frame_ok(frame, j + 1))
}

/// The one receive poll the receiver makes per iteration: at most one frame,
/// bounded by `timeout_ms`, on the given device and channel.
pub open spec fn rx_call(dev_type: u32, dev_index: u32, channel: u32, timeout_ms: u32) -> Call {
    Call::Receive { dev_type, dev_index, channel, max_frames: 1, timeout_ms }
}

/// What the receiver adds to the driver log: such receive polls and nothing
/// else.
pub open spec fn rx_delta_ok(
    delta: Seq<Call>,
    dev_type: u32,
    dev_index: u32,
    channel: u32,
    timeout_ms: u32,
) -> bool {
    forall|j: int|
        0 <= j < delta.len() ==> #[trigger] delta[j] == rx_call(
            dev_type,
            dev_index,
            channel,
            timeout_ms,
        )
}

/// The transmit calls of a full-plan delta are exactly the plan, and the
/// delta closes and receives nothing.
pub proof fn lemma_tx_delta_plan(delta: Seq<Call>, dev_type: u32, dev_index: u32, channel: u32)
    requires
        tx_delta_ok(delta, dev_type, dev_index, channel),
    ensures
        is_plan(crate::driver::transmits_of(delta)),
        crate::driver::closes_in(delta) == 0,
        crate::driver::receives_in(delta) == 0,
{
    lemma_transmit_only_run(delta);
    let t = crate::driver::transmits_of(delta);
    assert forall|j: int| 0 <= j < t.len() implies plan_frame_ok(#[trigger] t[j], j + 1) by {
        assert(delta[j] matches Call::Transmit { frame, .. } && frame == t[j]);
        assert(delta[j] matches Call::Transmit { frame, .. } && plan_frame_ok(frame, j + 1));
    }
}

/// In the transmit plan the single payload byte strictly increases from
/// frame to frame, 1 through 255, and every frame carries exactly one
/// payload byte.
pub proof fn lemma_plan_strictly_increasing(s: Seq<Frame>)
    requires
        is_plan(s),
    ensures
        s.len() == PLAN_LEN,
        forall|j: int| 0 <= j < s.len() ==> (#[trigger] s[j]).data_len == 1,
        forall|j: int| 0 <= j < s.len() ==> (#[trigger] s[j]).data@[0] == j + 1,
        forall|i: int, j: int|
            0 <= i < j < s.len() ==> (#[trigger] s[i]).data@[0] < (#[trigger] s[j]).data@[0],
{
    assert forall|j: int| 0 <= j < s.len() implies (#[trigger] s[j]).data_len == 1 by {
        assert(plan_frame_ok(s[j], j + 1));
    }
    assert forall|j: int| 0 <= j < s.len() implies (#[trigger] s[j]).data@[0] == j + 1 by {
        assert(plan_frame_ok(s[j], j + 1));
    }
}

/// What the receiver reports for one received frame: its identifier and its
/// payload truncated to `data_len` bytes.
pub open spec fn report_of(f: Frame) -> (u32, Seq<u8>) {
    (f.id, f.payload_spec())
}

/// The receiver's reports for a run of received frames, in order.
pub open spec fn reports_of(frames: Seq<Frame>) -> Seq<(u32, Seq<u8>)> {
    frames.map_values(|f: Frame| report_of(f))
}

/// A run of identical pacing sleeps.
pub open spec fn paces(count: nat, ms: u64) -> Seq<u64> {
    Seq::new(count, |i: int| ms)
}

/// Send the whole transmit plan on one channel: 255 frames whose payload
/// byte counts 1 through 255, one transmit call and one `pace_ms` sleep per
/// frame, each frame's driver status reported to the sink as it is logged.
/// The plan is sent unconditionally: the transmitter does not observe the
/// cancellation flag.
pub fn run_transmitter<D: Driver, P: Pacer, S: FrameSink>(
    driver: &mut D,
    pacer: &mut P,
    sink: &mut S,
    dev_type: u32,
    dev_index: u32,
    channel: u32,
    pace_ms: u64,
) -> (r: (u32, Ghost<Seq<Call>>))
    requires
        old(driver).inv(),
    ensures
        final(driver).inv(),
        final(driver).log() == old(driver).log() + r.1@,
        tx_delta_ok(r.1@, dev_type, dev_index, channel),
        final(driver).delivered() == old(driver).delivered(),
        final(pacer).slept() == old(pacer).slept() + paces(PLAN_LEN as nat, pace_ms),
        final(sink).received_reports() == old(sink).received_reports(),
        final(sink).sent_reports().len() == old(sink).sent_reports().len() + PLAN_LEN,
        forall|j: int|
            0 <= j < old(sink).sent_reports().len() ==> final(sink).sent_reports()[j] == old(sink).sent_reports()[j],
        forall|j: int|
            0 <= j < PLAN_LEN ==> ((#[trigger] r.1@[j]) matches Call::Transmit { ok, .. } && final(sink).sent_reports()[old(sink).sent_reports().len() + j] == (((j + 1) as u8, ok))),
        r.0 == successes_in(r.1@),
{
    let ghost old_log = driver.log();
    let ghost old_delivered = driver.delivered();
    let ghost old_slept = pacer.slept();
    let ghost old_received = sink.received_reports();
    let ghost old_sent = sink.sent_reports();
    let ghost mut delta: Seq<Call> = Seq::empty();
    let mut sent_ok: u32 = 0;
    let mut k: usize = 0;
    proof {
        assert(old_log + delta =~= old_log);
        assert(old_slept + paces(0, pace_ms) =~= old_slept);
    }
    while k < PLAN_LEN
        invariant
            driver.inv(),
            k <= PLAN_LEN,
            delta.len() == k,
            driver.log() == old_log + delta,
            forall|j: int|
                0 <= j < k ==> ((#[trigger] delta[j]) matches Call::Transmit {
                    dev_type: dt,
                    dev_index: di,
                    channel: ch,
                    frame,
                    ok: _,
                } && dt == dev_type && di == dev_index && ch == channel && plan_frame_ok(
                    frame,
                    j + 1,
                )),
            driver.delivered() == old_delivered,
            pacer.slept() == old_slept + paces(k as nat, pace_ms),
            sink.received_reports() == old_received,
            sink.sent_reports().len() == old_sent.len() + k,
            forall|j: int| 0 <= j < old_sent.len() ==> sink.sent_reports()[j] == old_sent[j],
            forall|j: int|
                0 <= j < k ==> ((#[trigger] delta[j]) matches Call::Transmit { ok, .. }
                    && sink.sent_reports()[old_sent.len() + j] == (((j + 1) as u8, ok))),
            sent_ok == successes_in(delta),
            sent_ok <= k,
        decreases PLAN_LEN - k,
    {
        let value: u8 = (k + 1) as u8;
        let f = Frame::new(PLAN_ID, 1, [value, 0, 0, 0, 0, 0, 0, 0]);
        let ok = driver.transmit(dev_type, dev_index, channel, &f);
        proof {
            let pre = delta;
            let c = Call::Transmit { dev_type, dev_index, channel, frame: f, ok };
            delta = pre.push(c);
            assert(old_log + delta =~= (old_log + pre).push(c));
            crate::driver::lemma_push_facts(pre, c);
            assert(plan_frame_ok(f, k + 1));
        }
        if ok {
            sent_ok = sent_ok + 1;
        }
        sink.report_sent(value, ok);
        proof {
            assert(old_slept + paces((k + 1) as nat, pace_ms) =~= (old_slept + paces(
                k as nat,
                pace_ms,
            )).push(pace_ms));
        }
        pacer.sleep_ms(pace_ms);
        k = k + 1;
    }
    (sent_ok, Ghost(delta))
}

/// Poll one channel for inbound frames until the cancellation flag is
/// observed set, reporting each received frame's identifier and payload to
/// the sink. At most one frame is fetched per receive call, each call waits
/// at most `timeout_ms`, and the flag is re-checked before every call, so
/// the receiver makes at most `patience` receive calls — each bounded by one
/// poll timeout plus one `pace_ms` sleep — before it exits with the flag
/// set. The receiver only ever observes the flag; it never raises it.
pub fn run_receiver<D: Driver, F: CancelFlag, P: Pacer, S: FrameSink>(
    driver: &mut D,
    flag: &mut F,
    pacer: &mut P,
    sink: &mut S,
    dev_type: u32,
    dev_index: u32,
    channel: u32,
    timeout_ms: u32,
    pace_ms: u64,
) -> (r: (Ghost<Seq<Call>>, Ghost<Seq<Frame>>))
    requires
        old(driver).inv(),
    ensures
        final(driver).inv(),
        final(flag).is_set(),
        final(flag).raises() == old(flag).raises(),
        final(driver).log() == old(driver).log() + r.0@,
        rx_delta_ok(r.0@, dev_type, dev_index, channel, timeout_ms),
        final(driver).delivered() == old(driver).delivered() + r.1@,
        forall|j: int| 0 <= j < r.1@.len() ==> (#[trigger] r.1@[j]).wf(),
        final(sink).received_reports() == old(sink).received_reports() + reports_of(r.1@),
        final(sink).sent_reports() == old(sink).sent_reports(),
        r.0@.len() <= old(flag).patience(),
        final(pacer).slept() == old(pacer).slept() + paces(r.0@.len(), pace_ms),
{
    let ghost old_log = driver.log();
    let ghost old_delivered = driver.delivered();
    let ghost old_patience = flag.patience();
    let ghost old_raises = flag.raises();
    let ghost old_slept = pacer.slept();
    let ghost old_received = sink.received_reports();
    let ghost old_sent = sink.sent_reports();
    let ghost mut delta: Seq<Call> = Seq::empty();
    let ghost mut got: Seq<Frame> = Seq::empty();
    proof {
        assert(old_log + delta =~= old_log);
        assert(old_delivered + got =~= old_delivered);
        assert(old_received + reports_of(got) =~= old_received);
        assert(old_slept + paces(0, pace_ms) =~= old_slept);
    }
    loop
        invariant_except_break
            delta.len() + flag.patience() <= old_patience,
        invariant
            driver.inv(),
            driver.log() == old_log + delta,
            rx_delta_ok(delta, dev_type, dev_index, channel, timeout_ms),
            flag.raises() == old_raises,
            driver.delivered() == old_delivered + got,
            forall|j: int| 0 <= j < got.len() ==> (#[trigger] got[j]).wf(),
            sink.received_reports() == old_received + reports_of(got),
            sink.sent_reports() == old_sent,
            pacer.slept() == old_slept + paces(delta.len(), pace_ms),
        ensures
            flag.is_set(),
            flag.raises() == old_raises,
            driver.inv(),
            driver.log() == old_log + delta,
            rx_delta_ok(delta, dev_type, dev_index, channel, timeout_ms),
            driver.delivered() == old_delivered + got,
            forall|j: int| 0 <= j < got.len() ==> (#[trigger] got[j]).wf(),
            sink.received_reports() == old_received + reports_of(got),
            sink.sent_reports() == old_sent,
            delta.len() <= old_patience,
            pacer.slept() == old_slept + paces(delta.len(), pace_ms),
        decreases flag.patience(),
    {
        if flag.poll() {
            break;
        }
        let frames = driver.receive(dev_type, dev_index, channel, 1, timeout_ms);
        proof {
            let pre = delta;
            delta = pre.push(rx_call(dev_type, dev_index, channel, timeout_ms));
            assert(old_log + delta =~= (old_log + pre).push(
                rx_call(dev_type, dev_index, channel, timeout_ms),
            ));
        }
        let mut i: usize = 0;
        while i < frames.len()
            invariant
                forall|j: int| 0 <= j < frames@.len() ==> (#[trigger] frames@[j]).wf(),
                i <= frames.len(),
                sink.received_reports() == old_received + reports_of(got + frames@.take(i as int)),
                sink.sent_reports() == old_sent,
            decreases frames.len() - i,
        {
            let fr = frames[i];
            let payload = fr.payload();
            sink.report_received(fr.id, payload);
            proof {
                let part = got + frames@.take(i as int);
                assert(got + frames@.take(i as int + 1) =~= part.push(frames@[i as int]));
                assert(reports_of(part.push(frames@[i as int])) =~= reports_of(part).push(
                    report_of(frames@[i as int]),
                ));
                assert(old_received + reports_of(part.push(frames@[i as int])) =~= (old_received
                    + reports_of(part)).push(report_of(frames@[i as int])));
            }
            i = i + 1;
        }
        proof {
            assert(frames@.take(frames@.len() as int) =~= frames@);
            got = got + frames@;
            assert(old_slept + paces(delta.len(), pace_ms) =~= (old_slept + paces(
                (delta.len() - 1) as nat,
                pace_ms,
            )).push(pace_ms));
        }
        pacer.sleep_ms(pace_ms);
    }
    (Ghost(delta), Ghost(got))
}

/// Watch the cancellation source until the stop combination (Control + X)
/// arrives — then raise the cancellation flag, once — or until the flag is
/// observed already set, in which case nothing is raised; either way the
/// watcher returns with the flag set. No event before the stop combination
/// is a stop combination, and nothing is consumed past it. Each input poll
/// waits at most `timeout_ms`, so the watcher also notices cancellation from
/// elsewhere within one poll timeout.
pub fn run_watcher<F: CancelFlag, C: CancelSource>(flag: &mut F, source: &mut C, timeout_ms: u64)
    -> (events: Ghost<Seq<Option<KeyEvent>>>)
    ensures
        final(flag).is_set(),
        final(source).taken() == old(source).taken() + events@,
        forall|j: int| 0 <= j < events@.len() - 1 ==> !opt_is_stop(#[trigger] events@[j]),
        final(flag).raises() == old(flag).raises() + (if events@.len() > 0 && opt_is_stop(
            events@.last(),
        ) {
            1nat
        } else {
            0nat
        }),
{
    let ghost old_taken = source.taken();
    let ghost old_raises = flag.raises();
    let ghost mut events: Seq<Option<KeyEvent>> = Seq::empty();
    proof {
        assert(old_taken + events =~= old_taken);
    }
    loop
        invariant_except_break
            forall|j: int| 0 <= j < events.len() ==> !opt_is_stop(#[trigger] events[j]),
            flag.raises() == old_raises,
        invariant
            source.taken() == old_taken + events,
        ensures
            flag.is_set(),
            source.taken() == old_taken + events,
            forall|j: int| 0 <= j < events.len() - 1 ==> !opt_is_stop(#[trigger] events[j]),
            flag.raises() == old_raises + (if events.len() > 0 && opt_is_stop(events.last()) {
                1nat
            } else {
                0nat
            }),
        decreases flag.patience(),
    {
        if flag.poll() {
            break;
        }
        let ev = source.poll_event(timeout_ms);
        proof {
            let pre = events;
            events = pre.push(ev);
            assert(old_taken + events =~= (old_taken + pre).push(ev));
        }
        match ev {
            Some(k) => {
                if is_stop_combo(&k) {
                    flag.raise();
                    break;
                }
            }
            None => {}
        }
    }
    Ghost(events)
}

} // verus!
