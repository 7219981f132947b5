//! Scripted implementations of the capability traits, for exercising the
//! session without hardware. The fake driver answers from fixed status
//! scripts and a queue of inbound frames and records every call; the fake
//! flag behaves as if another activity raised it after a set number of
//! polls; the fake source replays a fixed event stream; the fake pacer and
//! the vector sink record instead of sleeping and printing.

use vstd::prelude::*;

use crate::driver::Call;
use crate::driver::Driver;
use crate::frame::ChannelConfig;
use crate::frame::Frame;
use crate::ports::CancelFlag;
use crate::ports::CancelSource;
use crate::ports::FrameSink;
use crate::ports::KeyEvent;
use crate::ports::Pacer;

verus! {

/// A driver that answers from scripts: one status per operation kind, and a
/// queue of frame batches for successive receive calls (empty once the queue
/// runs out). Every call is recorded, calls and delivered frames alike, so a
/// test can check the whole interaction.
pub struct FakeDriver {
    pub open_ok: bool,
    pub close_ok: bool,
    pub init0_ok: bool,
    pub init1_ok: bool,
    pub start0_ok: bool,
    pub start1_ok: bool,
    pub transmit_ok: bool,
    /// Frame batches handed out by successive receive calls, first call
    /// first; every queued frame must be well formed.
    pub rx_script: Vec<Vec<Frame>>,
    /// Every call made so far, oldest first.
    pub calls: Vec<Call>,
    /// Every frame handed out so far, oldest first.
    pub delivered_frames: Vec<Frame>,
}

impl FakeDriver {
    /// A driver whose every status is success and whose receive queue is
    /// `rx_script`.
    pub fn all_ok(rx_script: Vec<Vec<Frame>>) -> (d: FakeDriver)
        requires
            forall|i: int, j: int|
                0 <= i < rx_script@.len() && 0 <= j < rx_script@[i]@.len()
                    ==> (#[trigger] rx_script@[i]@[j]).wf(),
        ensures
            d.inv(),
            d.open_ok && d.close_ok && d.init0_ok && d.init1_ok && d.start0_ok && d.start1_ok
                && d.transmit_ok,
            d.rx_script == rx_script,
            d.log() == Seq::<Call>::empty(),
            d.delivered() == Seq::<Frame>::empty(),
    {
        FakeDriver {
            open_ok: true,
            close_ok: true,
            init0_ok: true,
            init1_ok: true,
            start0_ok: true,
            start1_ok: true,
            transmit_ok: true,
            rx_script,
            calls: Vec::new(),
            delivered_frames: Vec::new(),
        }
    }
}

impl Driver for FakeDriver {
    open spec fn inv(&self) -> bool {
        forall|i: int, j: int|
            0 <= i < self.rx_script@.len() && 0 <= j < self.rx_script@[i]@.len()
                ==> (#[trigger] self.rx_script@[i]@[j]).wf()
    }

    open spec fn log(&self) -> Seq<Call> {
        self.calls@
    }

    open spec fn delivered(&self) -> Seq<Frame> {
        self.delivered_frames@
    }

    fn open_device(&mut self, dev_type: u32, dev_index: u32) -> (ok: bool) {
        let ok = self.open_ok;
        self.calls.push(Call::Open { dev_type, dev_index, ok });
        ok
    }

    fn close_device(&mut self, dev_type: u32, dev_index: u32) -> (ok: bool) {
        let ok = self.close_ok;
        self.calls.push(Call::Close { dev_type, dev_index, ok });
        ok
    }

    fn init_channel(
        &mut self,
        dev_type: u32,
        dev_index: u32,
        channel: u32,
        config: &ChannelConfig,
    ) -> (ok: bool) {
        let ok = if channel == 0 {
            self.init0_ok
        } else {
            self.init1_ok
        };
        self.calls.push(Call::Init { dev_type, dev_index, channel, config: *config, ok });
        ok
    }

    fn start_channel(&mut self, dev_type: u32, dev_index: u32, channel: u32) -> (ok: bool) {
        let ok = if channel == 0 {
            self.start0_ok
        } else {
            self.start1_ok
        };
        self.calls.push(Call::Start { dev_type, dev_index, channel, ok });
        ok
    }

    fn transmit(&mut self, dev_type: u32, dev_index: u32, channel: u32, frame: &Frame) -> (ok:
        bool) {
        let ok = self.transmit_ok;
        self.calls.push(Call::Transmit { dev_type, dev_index, channel, frame: *frame, ok });
        ok
    }

    fn receive(
        &mut self,
        dev_type: u32,
        dev_index: u32,
        channel: u32,
        max_frames: u32,
        timeout_ms: u32,
    ) -> (frames: Vec<Frame>) {
        self.calls.push(Call::Receive { dev_type, dev_index, channel, max_frames, timeout_ms });
        let ghost old_delivered = self.delivered_frames@;
        let mut out: Vec<Frame> = Vec::new();
        if self.rx_script.len() > 0 {
            let ghost old_script = self.rx_script@;
            let batch = self.rx_script.remove(0);
            proof {
                assert(batch == old_script[0]);
                assert forall|i: int, j: int|
                    0 <= i < self.rx_script@.len() && 0 <= j < self.rx_script@[i]@.len() implies (
                #[trigger] self.rx_script@[i]@[j]).wf() by {
                    assert(self.rx_script@[i] == old_script[i + 1]);
                }
                assert(forall|j: int| 0 <= j < batch@.len() ==> (#[trigger] batch@[j]).wf());
            }
            let mut i: usize = 0;
            while i < batch.len() && i < max_frames as usize
                invariant
                    i <= batch.len(),
                    i <= max_frames as usize,
                    out@ == batch@.take(i as int),
                    forall|j: int| 0 <= j < batch@.len() ==> (#[trigger] batch@[j]).wf(),
                decreases batch.len() - i,
            {
                proof {
                    assert(batch@.take(i as int + 1) =~= batch@.take(i as int).push(
                        batch@[i as int],
                    ));
                }
                out.push(batch[i]);
                i = i + 1;
            }
        }
        let ghost mid_calls = self.calls@;
        proof {
            assert(old_delivered + out@.take(0) =~= old_delivered);
        }
        let mut k: usize = 0;
        while k < out.len()
            invariant
                k <= out.len(),
                self.inv(),
                self.calls@ == mid_calls,
                self.delivered_frames@ == old_delivered + out@.take(k as int),
                forall|j: int| 0 <= j < out@.len() ==> (#[trigger] out@[j]).wf(),
                out@.len() <= max_frames,
            decreases out.len() - k,
        {
            proof {
                assert(old_delivered + out@.take(k as int + 1) =~= (old_delivered + out@.take(
                    k as int,
                )).push(out@[k as int]));
            }
            self.delivered_frames.push(out[k]);
            k = k + 1;
        }
        proof {
            assert(out@.take(out@.len() as int) =~= out@);
        }
        out
    }
}

/// A cancellation flag that behaves as if another activity raised it after
/// `auto_after` more polls; a test can also raise it directly. The number of
/// raise calls made through this handle is tracked in ghost state.
pub struct FakeFlag {
    pub set_now: bool,
    pub auto_after: u32,
    pub raise_calls: Ghost<nat>,
}

impl FakeFlag {
    /// A flag in the given state that polls will see raised once `auto_after`
    /// further polls have read it false.
    pub fn new(set_now: bool, auto_after: u32) -> (f: FakeFlag)
        ensures
            f.set_now == set_now,
            f.auto_after == auto_after,
            f.is_set() == set_now,
            f.patience() == auto_after,
            f.raises() == 0,
    {
        FakeFlag { set_now, auto_after, raise_calls: Ghost(0) }
    }
}

impl CancelFlag for FakeFlag {
    open spec fn is_set(&self) -> bool {
        self.set_now
    }

    open spec fn patience(&self) -> nat {
        self.auto_after as nat
    }

    open spec fn raises(&self) -> nat {
        self.raise_calls@
    }

    fn poll(&mut self) -> (set: bool) {
        if self.set_now {
            true
        } else if self.auto_after == 0 {
            self.set_now = true;
            true
        } else {
            self.auto_after = self.auto_after - 1;
            false
        }
    }

    fn raise(&mut self) {
        self.set_now = true;
        self.raise_calls = Ghost(self.raise_calls@ + 1);
    }
}

/// A cancellation source that replays a fixed event script, then reports
/// only timeouts, and records every poll outcome it handed out.
pub struct FakeSource {
    pub events: Vec<Option<KeyEvent>>,
    pub handed: Vec<Option<KeyEvent>>,
}

impl FakeSource {
    /// A source that will replay `events`, one per poll, then time out
    /// forever.
    pub fn from_script(events: Vec<Option<KeyEvent>>) -> (s: FakeSource)
        ensures
            s.events == events,
            s.taken() == Seq::<Option<KeyEvent>>::empty(),
    {
        FakeSource { events, handed: Vec::new() }
    }
}

impl CancelSource for FakeSource {
    open spec fn taken(&self) -> Seq<Option<KeyEvent>> {
        self.handed@
    }

    fn poll_event(&mut self, _timeout_ms: u64) -> (ev: Option<KeyEvent>) {
        let ev = if self.events.len() > 0 {
            self.events.remove(0)
        } else {
            None
        };
        self.handed.push(ev);
        ev
    }
}

/// A pacer that records each requested sleep instead of sleeping.
pub struct FakePacer {
    pub naps: Vec<u64>,
}

impl Pacer for FakePacer {
    open spec fn slept(&self) -> Seq<u64> {
        self.naps@
    }

    fn sleep_ms(&mut self, ms: u64) {
        self.naps.push(ms);
    }
}

/// A sink that collects every report in vectors.
pub struct VecSink {
    pub received: Vec<(u32, Vec<u8>)>,
    pub sent: Vec<(u8, bool)>,
}

impl VecSink {
    /// An empty sink.
    pub fn new() -> (s: VecSink)
        ensures
            s.received_reports() == Seq::<(u32, Seq<u8>)>::empty(),
            s.sent_reports() == Seq::<(u8, bool)>::empty(),
    {
        let s = VecSink { received: Vec::new(), sent: Vec::new() };
        proof {
            assert(s.received_reports() =~= Seq::<(u32, Seq<u8>)>::empty());
        }
        s
    }
}

impl FrameSink for VecSink {
    open spec fn received_reports(&self) -> Seq<(u32, Seq<u8>)> {
        self.received@.map_values(|p: (u32, Vec<u8>)| (p.0, p.1@))
    }

    open spec fn sent_reports(&self) -> Seq<(u8, bool)> {
        self.sent@
    }

    fn report_received(&mut self, id: u32, payload: Vec<u8>) {
        self.received.push((id, payload));
        proof {
            assert(self.received_reports() =~= old(self).received_reports().push((id, payload@)));
        }
    }

    fn report_sent(&mut self, value: u8, ok: bool) {
        self.sent.push((value, ok));
    }
}

} // verus!
