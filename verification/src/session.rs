//! The session lifecycle state machine.
//!
//! A session takes a device from closed through opened, configured and
//! started to running, and finally back to closed. Setup is strictly
//! sequential and fails fast; the run phase drives the three activities and
//! then closes the device exactly once, whatever the activities did.

use vstd::prelude::*;

use crate::activities::PLAN_LEN;
use crate::activities::is_plan;
use crate::activities::lemma_tx_delta_plan;
use crate::activities::paces;
use crate::activities::reports_of;
use crate::activities::run_receiver;
use crate::activities::run_transmitter;
use crate::activities::run_watcher;
use crate::activities::rx_delta_ok;
use crate::activities::tx_delta_ok;
use crate::driver::Call;
use crate::driver::Driver;
use crate::driver::DriverError;
use crate::driver::closes_in;
use crate::driver::has_init;
use crate::driver::has_open;
use crate::driver::lemma_closes_in_app;
use crate::driver::lemma_has_init_app;
use crate::driver::lemma_has_init_push;
use crate::driver::lemma_has_open_app;
use crate::driver::lemma_has_open_push;
use crate::driver::lemma_push_facts;
use crate::driver::lemma_receive_only_run;
use crate::driver::lemma_receives_in_app;
use crate::driver::lemma_transmits_of_app;
use crate::driver::receives_in;
use crate::driver::transmits_of;
use crate::frame::ChannelConfig;
use crate::frame::Frame;
use crate::ports::CancelFlag;
use crate::ports::CancelSource;
use crate::ports::FrameSink;
use crate::ports::Pacer;

verus! {

/// Pacing and polling intervals of one run, all in milliseconds.
#[derive(Clone, Copy, Debug, PartialEq, Eq)]
pub struct RunTiming {
    /// Pause between two transmit calls.
    pub tx_pace_ms: u64,
    /// How long one receive call may wait for a frame.
    pub rx_timeout_ms: u32,
    /// Pause between two receive calls.
    pub rx_pace_ms: u64,
    /// How long one input poll of the watcher may wait.
    pub watch_timeout_ms: u64,
}

impl RunTiming {
    /// The stock intervals: 10 ms between sends, 500 ms receive timeout,
    /// 5 ms between receive polls, 100 ms input polls.
    pub fn standard() -> (t: RunTiming)
        ensures
            t.tx_pace_ms == 10,
            t.rx_timeout_ms == 500,
            t.rx_pace_ms == 5,
            t.watch_timeout_ms == 100,
    {
        RunTiming { tx_pace_ms: 10, rx_timeout_ms: 500, rx_pace_ms: 5, watch_timeout_ms: 100 }
    }
}

/// Shape of the driver-call delta of one run phase: the whole transmit plan
/// went out, the device was closed exactly once, and the close came last.
pub open spec fn run_delta_ok(delta: Seq<Call>) -> bool {
    &&& delta.len() > 0
    &&& delta.last() matches Call::Close { .. }
    &&& closes_in(delta) == 1
    &&& is_plan(transmits_of(delta))
}

/// The five driver calls of a setup in which every step succeeded: open,
/// both channels configured with the one configuration, both started.
pub open spec fn setup_prefix(dev_type: u32, dev_index: u32, config: ChannelConfig) -> Seq<Call> {
    seq![
        Call::Open { dev_type, dev_index, ok: true },
        Call::Init { dev_type, dev_index, channel: 0, config, ok: true },
        Call::Init { dev_type, dev_index, channel: 1, config, ok: true },
        Call::Start { dev_type, dev_index, channel: 0, ok: true },
        Call::Start { dev_type, dev_index, channel: 1, ok: true },
    ]
}

proof fn lemma_setup_prefix_entries(dev_type: u32, dev_index: u32, config: ChannelConfig)
    ensures
        setup_prefix(dev_type, dev_index, config).len() == 5,
        setup_prefix(dev_type, dev_index, config)[0] == (Call::Open { dev_type, dev_index, ok: true }),
        setup_prefix(dev_type, dev_index, config)[1] == (Call::Init {
            dev_type,
            dev_index,
            channel: 0,
            config,
            ok: true,
        }),
        setup_prefix(dev_type, dev_index, config)[2] == (Call::Init {
            dev_type,
            dev_index,
            channel: 1,
            config,
            ok: true,
        }),
        setup_prefix(dev_type, dev_index, config)[3] == (Call::Start {
            dev_type,
            dev_index,
            channel: 0,
            ok: true,
        }),
        setup_prefix(dev_type, dev_index, config)[4] == (Call::Start {
            dev_type,
            dev_index,
            channel: 1,
            ok: true,
        }),
{
}

/// One session over a device: the driver capability, the device identity,
/// and where in the lifecycle the session stands.
pub struct Session<D: Driver> {
    pub driver: D,
    pub dev_type: u32,
    pub dev_index: u32,
    pub opened: bool,
    pub chan0_configured: bool,
    pub chan1_configured: bool,
    pub chan0_started: bool,
    pub chan1_started: bool,
    pub closed: bool,
}

impl<D: Driver> Session<D> {
    /// Lifecycle ordering invariant: configuration needs an opened device,
    /// starting needs both channels configured, and each recorded step is
    /// backed by the corresponding driver call in the log.
    pub open spec fn wf(self) -> bool {
        &&& self.driver.inv()
        &&& ((self.chan0_configured || self.chan1_configured) ==> self.opened)
        &&& ((self.chan0_started || self.chan1_started) ==> (self.chan0_configured
            && self.chan1_configured))
        &&& (self.opened ==> has_open(self.driver.log()))
        &&& (self.chan0_configured ==> has_init(self.driver.log(), 0))
        &&& (self.chan1_configured ==> has_init(self.driver.log(), 1))
    }

    /// A fresh session around a driver: the device is closed, nothing is
    /// configured or started.
    pub fn new(driver: D, dev_type: u32, dev_index: u32) -> (s: Session<D>)
        requires
            driver.inv(),
        ensures
            s.wf(),
            s.driver == driver,
            s.dev_type == dev_type,
            s.dev_index == dev_index,
            !s.opened,
            !s.chan0_configured,
            !s.chan1_configured,
            !s.chan0_started,
            !s.chan1_started,
            !s.closed,
    {
        Session {
            driver,
            dev_type,
            dev_index,
            opened: false,
            chan0_configured: false,
            chan1_configured: false,
            chan0_started: false,
            chan1_started: false,
            closed: false,
        }
    }

    /// Open the device. The logged call carries the session's device
    /// identity and the driver's status; the call reports `OpenFailed`, and
    /// the session stays closed, exactly when that status is a failure.
    pub fn open_device(&mut self) -> (r: Result<(), DriverError>)
        requires
            old(self).wf(),
            !old(self).opened,
            !old(self).closed,
        ensures
            final(self).wf(),
            final(self).dev_type == old(self).dev_type,
            final(self).dev_index == old(self).dev_index,
            final(self).driver.delivered() == old(self).driver.delivered(),
            !final(self).chan0_configured,
            !final(self).chan1_configured,
            !final(self).chan0_started,
            !final(self).chan1_started,
            !final(self).closed,
            match r {
                Ok(_) => final(self).opened && final(self).driver.log() == old(self).driver.log().push(
                    (Call::Open {
                        dev_type: old(self).dev_type,
                        dev_index: old(self).dev_index,
                        ok: true,
                    }),
                ),
                Err(e) => !final(self).opened && e == DriverError::OpenFailed && final(self).driver.log() == old(self).driver.log().push(
                    (Call::Open {
                        dev_type: old(self).dev_type,
                        dev_index: old(self).dev_index,
                        ok: false,
                    }),
                ),
            },
    {
        let ok = self.driver.open_device(self.dev_type, self.dev_index);
        proof {
            let l = self.driver.log();
            assert(l[l.len() - 1] matches Call::Open { .. });
            assert(has_open(l));
        }
        if ok {
            self.opened = true;
            Ok(())
        } else {
            Err(DriverError::OpenFailed)
        }
    }

    /// Apply `config` to `channel`. Valid while the device is opened and no
    /// channel is started yet. The logged call carries the session's device
    /// identity, the channel, the configuration handed in and the driver's
    /// status; the call reports `InitFailed` for the channel, and leaves it
    /// unconfigured, exactly when that status is a failure.
    pub fn configure_channel(&mut self, channel: u32, config: &ChannelConfig) -> (r: Result<
        (),
        DriverError,
    >)
        requires
            old(self).wf(),
            old(self).opened,
            !old(self).closed,
            !old(self).chan0_started,
            !old(self).chan1_started,
            channel == 0 || channel == 1,
        ensures
            final(self).wf(),
            final(self).dev_type == old(self).dev_type,
            final(self).dev_index == old(self).dev_index,
            final(self).driver.delivered() == old(self).driver.delivered(),
            final(self).opened,
            !final(self).chan0_started,
            !final(self).chan1_started,
            !final(self).closed,
            match r {
                Ok(_) => {
                    &&& final(self).driver.log() == old(self).driver.log().push(
                        (Call::Init {
                            dev_type: old(self).dev_type,
                            dev_index: old(self).dev_index,
                            channel,
                            config: *config,
                            ok: true,
                        }),
                    )
                    &&& final(self).chan0_configured == (old(self).chan0_configured || channel == 0)
                    &&& final(self).chan1_configured == (old(self).chan1_configured || channel == 1)
                },
                Err(e) => {
                    &&& final(self).driver.log() == old(self).driver.log().push(
                        (Call::Init {
                            dev_type: old(self).dev_type,
                            dev_index: old(self).dev_index,
                            channel,
                            config: *config,
                            ok: false,
                        }),
                    )
                    &&& final(self).chan0_configured == old(self).chan0_configured
                    &&& final(self).chan1_configured == old(self).chan1_configured
                    &&& e == (DriverError::InitFailed { channel })
                },
            },
    {
        let ok = self.driver.init_channel(self.dev_type, self.dev_index, channel, config);
        proof {
            let l0 = old(self).driver.log();
            let l = self.driver.log();
            let c = l.last();
            assert(l[l.len() - 1] matches Call::Init { channel: ch, .. } && ch == channel);
            assert(has_init(l, channel));
            lemma_has_open_push(l0, c);
            if old(self).chan0_configured {
                lemma_has_init_push(l0, c, 0);
            }
            if old(self).chan1_configured {
                lemma_has_init_push(l0, c, 1);
            }
        }
        if ok {
            if channel == 0 {
                self.chan0_configured = true;
            } else {
                self.chan1_configured = true;
            }
            Ok(())
        } else {
            Err(DriverError::InitFailed { channel })
        }
    }

    /// Start `channel`. Valid only once both channels are configured, so a
    /// start call is always preceded by init calls for channel 0 and channel
    /// 1 in the driver log. The logged call carries the session's device
    /// identity, the channel and the driver's status; the call reports
    /// `StartFailed` for the channel, and leaves it unstarted, exactly when
    /// that status is a failure.
    pub fn start_channel(&mut self, channel: u32) -> (r: Result<(), DriverError>)
        requires
            old(self).wf(),
            old(self).opened,
            !old(self).closed,
            old(self).chan0_configured,
            old(self).chan1_configured,
            channel == 0 || channel == 1,
        ensures
            final(self).wf(),
            final(self).dev_type == old(self).dev_type,
            final(self).dev_index == old(self).dev_index,
            final(self).driver.delivered() == old(self).driver.delivered(),
            has_init(old(self).driver.log(), 0),
            has_init(old(self).driver.log(), 1),
            final(self).opened,
            final(self).chan0_configured,
            final(self).chan1_configured,
            !final(self).closed,
            match r {
                Ok(_) => {
                    &&& final(self).driver.log() == old(self).driver.log().push(
                        (Call::Start {
                            dev_type: old(self).dev_type,
                            dev_index: old(self).dev_index,
                            channel,
                            ok: true,
                        }),
                    )
                    &&& final(self).chan0_started == (old(self).chan0_started || channel == 0)
                    &&& final(self).chan1_started == (old(self).chan1_started || channel == 1)
                },
                Err(e) => {
                    &&& final(self).driver.log() == old(self).driver.log().push(
                        (Call::Start {
                            dev_type: old(self).dev_type,
                            dev_index: old(self).dev_index,
                            channel,
                            ok: false,
                        }),
                    )
                    &&& final(self).chan0_started == old(self).chan0_started
                    &&& final(self).chan1_started == old(self).chan1_started
                    &&& e == (DriverError::StartFailed { channel })
                },
            },
    {
        let ok = self.driver.start_channel(self.dev_type, self.dev_index, channel);
        proof {
            let l0 = old(self).driver.log();
            let c = self.driver.log().last();
            lemma_has_open_push(l0, c);
            lemma_has_init_push(l0, c, 0);
            lemma_has_init_push(l0, c, 1);
        }
        if ok {
            if channel == 0 {
                self.chan0_started = true;
            } else {
                self.chan1_started = true;
            }
            Ok(())
        } else {
            Err(DriverError::StartFailed { channel })
        }
    }

    /// Close the device once: the final step of a run, and the best-effort
    /// teardown after a setup failure. The logged call carries the session's
    /// device identity and the driver's status, which is also the returned
    /// value; either way the session counts as closed.
    pub fn close_device(&mut self) -> (ok: bool)
        requires
            old(self).wf(),
            old(self).opened,
            !old(self).closed,
        ensures
            final(self).wf(),
            final(self).dev_type == old(self).dev_type,
            final(self).dev_index == old(self).dev_index,
            final(self).driver.log() == old(self).driver.log().push(
                (Call::Close {
                    dev_type: old(self).dev_type,
                    dev_index: old(self).dev_index,
                    ok,
                }),
            ),
            final(self).driver.delivered() == old(self).driver.delivered(),
            final(self).closed,
            final(self).opened == old(self).opened,
            final(self).chan0_configured == old(self).chan0_configured,
            final(self).chan1_configured == old(self).chan1_configured,
            final(self).chan0_started == old(self).chan0_started,
            final(self).chan1_started == old(self).chan1_started,
    {
        let ok = self.driver.close_device(self.dev_type, self.dev_index);
        proof {
            let l0 = old(self).driver.log();
            let c = self.driver.log().last();
            lemma_has_open_push(l0, c);
            if old(self).chan0_configured {
                lemma_has_init_push(l0, c, 0);
            }
            if old(self).chan1_configured {
                lemma_has_init_push(l0, c, 1);
            }
        }
        self.closed = true;
        ok
    }

    /// The run phase: the transmitter sends its whole plan on `tx_channel`,
    /// the receiver reports inbound frames from `rx_channel` until the flag
    /// is set, the watcher guarantees the flag ends set, and the device is
    /// closed exactly once, after all three have finished, with the close's
    /// status returned. Returns that status, the driver calls of the phase,
    /// and the frames the receiver took in.
    pub fn run<F: CancelFlag, C: CancelSource, S: FrameSink, P: Pacer>(
        &mut self,
        flag: &mut F,
        source: &mut C,
        sink: &mut S,
        pacer: &mut P,
        tx_channel: u32,
        rx_channel: u32,
        timing: &RunTiming,
    ) -> (r: (bool, Ghost<Seq<Call>>, Ghost<Seq<Frame>>))
        requires
            old(self).wf(),
            old(self).opened,
            old(self).chan0_started,
            old(self).chan1_started,
            !old(self).closed,
        ensures
            final(self).wf(),
            final(self).closed,
            final(self).driver.log() == old(self).driver.log() + r.1@,
            run_delta_ok(r.1@),
            r.1@.len() == PLAN_LEN + receives_in(r.1@) + 1,
            tx_delta_ok(
                r.1@.subrange(0, PLAN_LEN as int),
                old(self).dev_type,
                old(self).dev_index,
                tx_channel,
            ),
            rx_delta_ok(
                r.1@.subrange(PLAN_LEN as int, r.1@.len() - 1),
                old(self).dev_type,
                old(self).dev_index,
                rx_channel,
                timing.rx_timeout_ms,
            ),
            r.1@.last() == (Call::Close {
                dev_type: old(self).dev_type,
                dev_index: old(self).dev_index,
                ok: r.0,
            }),
            receives_in(r.1@) <= old(flag).patience(),
            final(pacer).slept() == old(pacer).slept() + paces(PLAN_LEN as nat, timing.tx_pace_ms)
                + paces(receives_in(r.1@), timing.rx_pace_ms),
            final(flag).is_set(),
            old(flag).raises() <= final(flag).raises() <= old(flag).raises() + 1,
            final(self).driver.delivered() == old(self).driver.delivered() + r.2@,
            forall|j: int| 0 <= j < r.2@.len() ==> (#[trigger] r.2@[j]).wf(),
            final(sink).received_reports() == old(sink).received_reports() + reports_of(r.2@),
            final(sink).sent_reports().len() == old(sink).sent_reports().len() + PLAN_LEN,
            forall|j: int|
                0 <= j < old(sink).sent_reports().len() ==> final(sink).sent_reports()[j] == old(sink).sent_reports()[j],
            forall|j: int|
                0 <= j < PLAN_LEN ==> ((#[trigger] r.1@[j]) matches Call::Transmit { ok, .. }
                    && final(sink).sent_reports()[old(sink).sent_reports().len() + j] == (((j
                    + 1) as u8, ok))),
    {
        let dev_type = self.dev_type;
        let dev_index = self.dev_index;
        let (_sent_ok, tx_delta) = run_transmitter(
            &mut self.driver,
            pacer,
            sink,
            dev_type,
            dev_index,
            tx_channel,
            timing.tx_pace_ms,
        );
        let (rx_delta, got) = run_receiver(
            &mut self.driver,
            flag,
            pacer,
            sink,
            dev_type,
            dev_index,
            rx_channel,
            timing.rx_timeout_ms,
            timing.rx_pace_ms,
        );
        let _events = run_watcher(flag, source, timing.watch_timeout_ms);
        proof {
            let l0 = old(self).driver.log();
            assert(self.driver.log() =~= l0 + (tx_delta@ + rx_delta@));
            lemma_has_open_app(l0, tx_delta@ + rx_delta@);
            lemma_has_init_app(l0, tx_delta@ + rx_delta@, 0);
            lemma_has_init_app(l0, tx_delta@ + rx_delta@, 1);
        }
        let close_ok = self.close_device();
        let ghost close_call = Call::Close { dev_type, dev_index, ok: close_ok };
        let ghost delta = tx_delta@ + rx_delta@ + seq![close_call];
        proof {
            let l0 = old(self).driver.log();
            assert(self.driver.log() =~= l0 + delta);
            lemma_tx_delta_plan(tx_delta@, dev_type, dev_index, tx_channel);
            assert forall|j: int|
                0 <= j < rx_delta@.len() implies (#[trigger] rx_delta@[j])
                matches Call::Receive { .. } by {
                assert(rx_delta@[j] == crate::activities::rx_call(
                    dev_type,
                    dev_index,
                    rx_channel,
                    timing.rx_timeout_ms,
                ));
            }
            lemma_receive_only_run(rx_delta@);
            assert(closes_in(Seq::<Call>::empty()) == 0);
            assert(receives_in(Seq::<Call>::empty()) == 0);
            assert(transmits_of(Seq::<Call>::empty()) =~= Seq::<Frame>::empty());
            assert(seq![close_call] =~= Seq::<Call>::empty().push(close_call));
            lemma_push_facts(Seq::<Call>::empty(), close_call);
            lemma_closes_in_app(tx_delta@, rx_delta@);
            lemma_closes_in_app(tx_delta@ + rx_delta@, seq![close_call]);
            lemma_receives_in_app(tx_delta@, rx_delta@);
            lemma_receives_in_app(tx_delta@ + rx_delta@, seq![close_call]);
            assert(delta =~= (tx_delta@ + rx_delta@) + seq![close_call]);
            assert(closes_in(delta) == 1);
            assert(receives_in(delta) == rx_delta@.len());
            lemma_transmits_of_app(tx_delta@, rx_delta@);
            lemma_transmits_of_app(tx_delta@ + rx_delta@, seq![close_call]);
            assert(transmits_of(delta) =~= transmits_of(tx_delta@));
            assert(delta.last() == close_call);
            assert(delta.subrange(0, PLAN_LEN as int) =~= tx_delta@);
            assert(delta.subrange(PLAN_LEN as int, delta.len() - 1) =~= rx_delta@);
            assert forall|j: int| 0 <= j < PLAN_LEN implies #[trigger] delta[j]
                == tx_delta@[j] by {}
            assert(pacer.slept() =~= old(pacer).slept() + paces(
                PLAN_LEN as nat,
                timing.tx_pace_ms,
            ) + paces(receives_in(delta), timing.rx_pace_ms));
        }
        (close_ok, Ghost(delta), got)
    }

    /// One complete session: open the device, configure channel 0 then
    /// channel 1 with the same configuration, start both channels, run the
    /// three activities, close. Setup is fail-fast: the first failure skips
    /// every remaining setup step and no activity is started. Whenever the
    /// open succeeded the device is closed exactly once, as the last driver
    /// call of the session; when the open failed no close is attempted. On a
    /// fatal setup failure the session raises the cancellation flag itself,
    /// so on every path the flag ends set.
    pub fn execute<F: CancelFlag, C: CancelSource, S: FrameSink, P: Pacer>(
        &mut self,
        config: &ChannelConfig,
        flag: &mut F,
        source: &mut C,
        sink: &mut S,
        pacer: &mut P,
        tx_channel: u32,
        rx_channel: u32,
        timing: &RunTiming,
    ) -> (r: (Result<bool, DriverError>, Ghost<Seq<Call>>, Ghost<Seq<Frame>>))
        requires
            old(self).wf(),
            !old(self).opened,
            !old(self).chan0_configured,
            !old(self).chan1_configured,
            !old(self).chan0_started,
            !old(self).chan1_started,
            !old(self).closed,
        ensures
            final(self).wf(),
            final(self).driver.log() == old(self).driver.log() + r.1@,
            final(flag).is_set(),
            final(self).closed == !(r.0 matches Err(DriverError::OpenFailed)),
            (r.0 matches Err(_) ==> final(flag).raises() == old(flag).raises() + 1),
            (r.0 matches Ok(_) ==> old(flag).raises() <= final(flag).raises() <= old(flag).raises() + 1),
            match r.0 {
                Err(DriverError::OpenFailed) => {
                    &&& r.1@ == seq![
                        Call::Open {
                            dev_type: old(self).dev_type,
                            dev_index: old(self).dev_index,
                            ok: false,
                        },
                    ]
                    &&& closes_in(r.1@) == 0
                    &&& transmits_of(r.1@) == Seq::<Frame>::empty()
                    &&& receives_in(r.1@) == 0
                },
                Err(DriverError::InitFailed { channel }) => {
                    &&& (channel == 0 || channel == 1)
                    &&& r.1@.len() == 3 + channel
                    &&& (forall|j: int|
                        0 <= j < 1 + channel ==> #[trigger] r.1@[j] == setup_prefix(
                            old(self).dev_type,
                            old(self).dev_index,
                            *config,
                        )[j])
                    &&& r.1@[1 + channel] == (Call::Init {
                        dev_type: old(self).dev_type,
                        dev_index: old(self).dev_index,
                        channel,
                        config: *config,
                        ok: false,
                    })
                    &&& (r.1@[2 + channel] matches Call::Close { dev_type: dt, dev_index: di, ok: _ }
                        && dt == old(self).dev_type && di == old(self).dev_index)
                    &&& closes_in(r.1@) == 1
                    &&& transmits_of(r.1@) == Seq::<Frame>::empty()
                    &&& receives_in(r.1@) == 0
                },
                Err(DriverError::StartFailed { channel }) => {
                    &&& (channel == 0 || channel == 1)
                    &&& r.1@.len() == 5 + channel
                    &&& (forall|j: int|
                        0 <= j < 3 + channel ==> #[trigger] r.1@[j] == setup_prefix(
                            old(self).dev_type,
                            old(self).dev_index,
                            *config,
                        )[j])
                    &&& r.1@[3 + channel] == (Call::Start {
                        dev_type: old(self).dev_type,
                        dev_index: old(self).dev_index,
                        channel,
                        ok: false,
                    })
                    &&& (r.1@[4 + channel] matches Call::Close { dev_type: dt, dev_index: di, ok: _ }
                        && dt == old(self).dev_type && di == old(self).dev_index)
                    &&& closes_in(r.1@) == 1
                    &&& transmits_of(r.1@) == Seq::<Frame>::empty()
                    &&& receives_in(r.1@) == 0
                },
                Ok(close_ok) => {
                    &&& r.1@.len() == 5 + PLAN_LEN + receives_in(r.1@) + 1
                    &&& r.1@.subrange(0, 5) == setup_prefix(
                        old(self).dev_type,
                        old(self).dev_index,
                        *config,
                    )
                    &&& tx_delta_ok(
                        r.1@.subrange(5, 5 + PLAN_LEN as int),
                        old(self).dev_type,
                        old(self).dev_index,
                        tx_channel,
                    )
                    &&& rx_delta_ok(
                        r.1@.subrange(5 + PLAN_LEN as int, r.1@.len() - 1),
                        old(self).dev_type,
                        old(self).dev_index,
                        rx_channel,
                        timing.rx_timeout_ms,
                    )
                    &&& r.1@.last() == (Call::Close {
                        dev_type: old(self).dev_type,
                        dev_index: old(self).dev_index,
                        ok: close_ok,
                    })
                    &&& closes_in(r.1@) == 1
                    &&& is_plan(transmits_of(r.1@))
                    &&& receives_in(r.1@) <= old(flag).patience()
                },
            },
            (r.0 matches Err(_) ==> {
                &&& r.2@ == Seq::<Frame>::empty()
                &&& final(self).driver.delivered() == old(self).driver.delivered()
                &&& final(sink).received_reports() == old(sink).received_reports()
                &&& final(sink).sent_reports() == old(sink).sent_reports()
                &&& final(pacer).slept() == old(pacer).slept()
            }),
            (r.0 matches Ok(_) ==> {
                &&& final(self).driver.delivered() == old(self).driver.delivered() + r.2@
                &&& (forall|j: int| 0 <= j < r.2@.len() ==> (#[trigger] r.2@[j]).wf())
                &&& final(sink).received_reports() == old(sink).received_reports() + reports_of(
                    r.2@,
                )
                &&& final(sink).sent_reports().len() == old(sink).sent_reports().len() + PLAN_LEN
                &&& (forall|j: int|
                    0 <= j < old(sink).sent_reports().len() ==> final(sink).sent_reports()[j]
                        == old(sink).sent_reports()[j])
                &&& (forall|j: int|
                    0 <= j < PLAN_LEN ==> ((#[trigger] r.1@[5 + j]) matches Call::Transmit {
                        ok,
                        ..
                    } && final(sink).sent_reports()[old(sink).sent_reports().len() + j] == (((j
                        + 1) as u8, ok))))
                &&& final(pacer).slept() == old(pacer).slept() + paces(
                    PLAN_LEN as nat,
                    timing.tx_pace_ms,
                ) + paces(receives_in(r.1@), timing.rx_pace_ms)
            }),
    {
        let ghost l0 = self.driver.log();
        let ghost dt = self.dev_type;
        let ghost di = self.dev_index;
        let ghost e0 = Seq::<Call>::empty();
        proof {
            lemma_setup_prefix_entries(dt, di, *config);
            assert(closes_in(e0) == 0);
            assert(receives_in(e0) == 0);
            assert(transmits_of(e0) =~= Seq::<Frame>::empty());
        }
        if let Err(e) = self.open_device() {
            flag.raise();
            let ghost d1 = e0.push(Call::Open { dev_type: dt, dev_index: di, ok: false });
            proof {
                lemma_push_facts(e0, Call::Open { dev_type: dt, dev_index: di, ok: false });
                assert(self.driver.log() =~= l0 + d1);
                assert(d1 =~= seq![Call::Open { dev_type: dt, dev_index: di, ok: false }]);
            }
            return (Err(e), Ghost(d1), Ghost(Seq::empty()));
        }
        let ghost p1 = Call::Open { dev_type: dt, dev_index: di, ok: true };
        let ghost d1 = e0.push(p1);
        if let Err(e) = self.configure_channel(0, config) {
            let ghost f2 = Call::Init { dev_type: dt, dev_index: di, channel: 0, config: *config, ok: false };
            let ghost d2 = d1.push(f2);
            let close_ok = self.close_device();
            flag.raise();
            let ghost c3 = Call::Close { dev_type: dt, dev_index: di, ok: close_ok };
            let ghost d3 = d2.push(c3);
            proof {
                lemma_push_facts(e0, p1);
                lemma_push_facts(d1, f2);
                lemma_push_facts(d2, c3);
                assert(self.driver.log() =~= l0 + d3);
                assert(d3[0] == p1 && d3[1] == f2 && d3[2] == c3);
            }
            return (Err(e), Ghost(d3), Ghost(Seq::empty()));
        }
        let ghost p2 = Call::Init { dev_type: dt, dev_index: di, channel: 0, config: *config, ok: true };
        let ghost d2 = d1.push(p2);
        if let Err(e) = self.configure_channel(1, config) {
            let ghost f3 = Call::Init { dev_type: dt, dev_index: di, channel: 1, config: *config, ok: false };
            let ghost d3 = d2.push(f3);
            let close_ok = self.close_device();
            flag.raise();
            let ghost c4 = Call::Close { dev_type: dt, dev_index: di, ok: close_ok };
            let ghost d4 = d3.push(c4);
            proof {
                lemma_push_facts(e0, p1);
                lemma_push_facts(d1, p2);
                lemma_push_facts(d2, f3);
                lemma_push_facts(d3, c4);
                assert(self.driver.log() =~= l0 + d4);
                assert(d4[0] == p1 && d4[1] == p2 && d4[2] == f3 && d4[3] == c4);
            }
            return (Err(e), Ghost(d4), Ghost(Seq::empty()));
        }
        let ghost p3 = Call::Init { dev_type: dt, dev_index: di, channel: 1, config: *config, ok: true };
        let ghost d3 = d2.push(p3);
        if let Err(e) = self.start_channel(0) {
            let ghost f4 = Call::Start { dev_type: dt, dev_index: di, channel: 0, ok: false };
            let ghost d4 = d3.push(f4);
            let close_ok = self.close_device();
            flag.raise();
            let ghost c5 = Call::Close { dev_type: dt, dev_index: di, ok: close_ok };
            let ghost d5 = d4.push(c5);
            proof {
                lemma_push_facts(e0, p1);
                lemma_push_facts(d1, p2);
                lemma_push_facts(d2, p3);
                lemma_push_facts(d3, f4);
                lemma_push_facts(d4, c5);
                assert(self.driver.log() =~= l0 + d5);
                assert(d5[0] == p1 && d5[1] == p2 && d5[2] == p3 && d5[3] == f4 && d5[4] == c5);
            }
            return (Err(e), Ghost(d5), Ghost(Seq::empty()));
        }
        let ghost p4 = Call::Start { dev_type: dt, dev_index: di, channel: 0, ok: true };
        let ghost d4 = d3.push(p4);
        if let Err(e) = self.start_channel(1) {
            let ghost f5 = Call::Start { dev_type: dt, dev_index: di, channel: 1, ok: false };
            let ghost d5 = d4.push(f5);
            let close_ok = self.close_device();
            flag.raise();
            let ghost c6 = Call::Close { dev_type: dt, dev_index: di, ok: close_ok };
            let ghost d6 = d5.push(c6);
            proof {
                lemma_push_facts(e0, p1);
                lemma_push_facts(d1, p2);
                lemma_push_facts(d2, p3);
                lemma_push_facts(d3, p4);
                lemma_push_facts(d4, f5);
                lemma_push_facts(d5, c6);
                assert(self.driver.log() =~= l0 + d6);
                assert(d6[0] == p1 && d6[1] == p2 && d6[2] == p3 && d6[3] == p4 && d6[4] == f5
                    && d6[5] == c6);
            }
            return (Err(e), Ghost(d6), Ghost(Seq::empty()));
        }
        let ghost p5 = Call::Start { dev_type: dt, dev_index: di, channel: 1, ok: true };
        let ghost d5 = d4.push(p5);
        let (close_ok, run_delta, got) = self.run(
            flag,
            source,
            sink,
            pacer,
            tx_channel,
            rx_channel,
            timing,
        );
        let ghost delta = d5 + run_delta@;
        proof {
            lemma_push_facts(e0, p1);
            lemma_push_facts(d1, p2);
            lemma_push_facts(d2, p3);
            lemma_push_facts(d3, p4);
            lemma_push_facts(d4, p5);
            assert(self.driver.log() =~= l0 + delta);
            assert(d5 =~= setup_prefix(dt, di, *config));
            lemma_closes_in_app(d5, run_delta@);
            lemma_receives_in_app(d5, run_delta@);
            lemma_transmits_of_app(d5, run_delta@);
            assert(transmits_of(delta) =~= transmits_of(run_delta@));
            assert(delta.last() == run_delta@.last());
            assert(delta.subrange(0, 5) =~= d5);
            assert(delta.subrange(5, 5 + PLAN_LEN as int) =~= run_delta@.subrange(
                0,
                PLAN_LEN as int,
            ));
            assert(delta.subrange(5 + PLAN_LEN as int, delta.len() - 1) =~= run_delta@.subrange(
                PLAN_LEN as int,
                run_delta@.len() - 1,
            ));
            assert(paces(receives_in(delta), timing.rx_pace_ms) =~= paces(
                receives_in(run_delta@),
                timing.rx_pace_ms,
            ));
            assert forall|j: int| 0 <= j < PLAN_LEN implies #[trigger] delta[5 + j]
                == run_delta@[j] by {}
        }
        (Ok(close_ok), Ghost(delta), got)
    }
}

/// Lifecycle ordering: in every well-formed session in which a channel may
/// be started (both channels configured), the driver log already holds init
/// calls for channel 0 and channel 1.
pub proof fn lemma_start_needs_both_inits<D: Driver>(s: Session<D>)
    requires
        s.wf(),
        s.chan0_configured,
        s.chan1_configured,
    ensures
        has_init(s.driver.log(), 0),
        has_init(s.driver.log(), 1),
{
}

} // verus!
