//! The hardware access layer as a capability trait.
//!
//! The driver is an external collaborator: nothing is assumed about which
//! status each call returns. What the trait does pin down is the *observable
//! history*: every implementation keeps a log of the calls made to it, each
//! operation appends exactly one entry holding the operation, every argument
//! it was handed and the status it returned, and receive calls additionally
//! append the frames they handed out. The session and activity contracts are
//! stated over that history.

use vstd::prelude::*;

use crate::frame::ChannelConfig;
use crate::frame::Frame;

verus! {

/// One observable interaction with the hardware access layer: the operation,
/// every argument handed to the driver, and the status it returned.
#[derive(Clone, Copy, Debug, PartialEq, Eq)]
pub enum Call {
    Open { dev_type: u32, dev_index: u32, ok: bool },
    Close { dev_type: u32, dev_index: u32, ok: bool },
    Init { dev_type: u32, dev_index: u32, channel: u32, config: ChannelConfig, ok: bool },
    Start { dev_type: u32, dev_index: u32, channel: u32, ok: bool },
    Transmit { dev_type: u32, dev_index: u32, channel: u32, frame: Frame, ok: bool },
    Receive { dev_type: u32, dev_index: u32, channel: u32, max_frames: u32, timeout_ms: u32 },
}

/// Setup-time failures, fatal to the run that met them, each carrying the
/// channel it concerns where one is involved. Per-call transmit and receive
/// failures, and a failure of the final close, are not fatal: they are
/// reported as statuses and the session carries on.
#[derive(Clone, Copy, Debug, PartialEq, Eq)]
pub enum DriverError {
    OpenFailed,
    InitFailed { channel: u32 },
    StartFailed { channel: u32 },
}

/// The frames passed to transmit calls, in call order.
pub open spec fn transmits_of(s: Seq<Call>) -> Seq<Frame>
    decreases s.len(),
{
    if s.len() == 0 {
        Seq::empty()
    } else {
        match s.last() {
            Call::Transmit { frame, .. } => transmits_of(s.drop_last()).push(frame),
            _ => transmits_of(s.drop_last()),
        }
    }
}

/// How many close calls the log holds.
pub open spec fn closes_in(s: Seq<Call>) -> nat
    decreases s.len(),
{
    if s.len() == 0 {
        0
    } else {
        closes_in(s.drop_last()) + (match s.last() {
            Call::Close { .. } => 1nat,
            _ => 0nat,
        })
    }
}

/// How many receive calls the log holds.
pub open spec fn receives_in(s: Seq<Call>) -> nat
    decreases s.len(),
{
    if s.len() == 0 {
        0
    } else {
        receives_in(s.drop_last()) + (match s.last() {
            Call::Receive { .. } => 1nat,
            _ => 0nat,
        })
    }
}

/// How many transmit calls in the log carried a success status.
pub open spec fn successes_in(s: Seq<Call>) -> nat
    decreases s.len(),
{
    if s.len() == 0 {
        0
    } else {
        successes_in(s.drop_last()) + (match s.last() {
            Call::Transmit { ok, .. } => if ok {
                1nat
            } else {
                0nat
            },
            _ => 0nat,
        })
    }
}

/// Whether the log holds an open call, whatever its status.
pub open spec fn has_open(s: Seq<Call>) -> bool {
    exists|i: int| 0 <= i < s.len() && ((#[trigger] s[i]) matches Call::Open { .. })
}

/// Whether the log holds an init call for `channel`, whatever its
/// configuration and status.
pub open spec fn has_init(s: Seq<Call>, channel: u32) -> bool {
    exists|i: int|
        0 <= i < s.len() && ((#[trigger] s[i]) matches Call::Init { channel: c, .. } && c
            == channel)
}

/// `transmits_of` distributes over concatenation.
pub proof fn lemma_transmits_of_app(a: Seq<Call>, b: Seq<Call>)
    ensures
        transmits_of(a + b) == transmits_of(a) + transmits_of(b),
    decreases b.len(),
{
    if b.len() == 0 {
        assert(a + b =~= a);
        assert(transmits_of(a) + transmits_of(b) =~= transmits_of(a));
    } else {
        lemma_transmits_of_app(a, b.drop_last());
        assert((a + b).drop_last() =~= a + b.drop_last());
        assert((a + b).last() == b.last());
        match b.last() {
            Call::Transmit { frame, .. } => {
                assert(transmits_of(a + b)
                    == (transmits_of(a) + transmits_of(b.drop_last())).push(frame));
                assert(transmits_of(b) == transmits_of(b.drop_last()).push(frame));
                assert((transmits_of(a) + transmits_of(b.drop_last())).push(frame)
                    =~= transmits_of(a) + transmits_of(b.drop_last()).push(frame));
            }
            _ => {}
        }
    }
}

/// `closes_in` distributes over concatenation.
pub proof fn lemma_closes_in_app(a: Seq<Call>, b: Seq<Call>)
    ensures
        closes_in(a + b) == closes_in(a) + closes_in(b),
    decreases b.len(),
{
    if b.len() == 0 {
        assert(a + b =~= a);
    } else {
        lemma_closes_in_app(a, b.drop_last());
        assert((a + b).drop_last() =~= a + b.drop_last());
        assert((a + b).last() == b.last());
    }
}

/// `receives_in` distributes over concatenation.
pub proof fn lemma_receives_in_app(a: Seq<Call>, b: Seq<Call>)
    ensures
        receives_in(a + b) == receives_in(a) + receives_in(b),
    decreases b.len(),
{
    if b.len() == 0 {
        assert(a + b =~= a);
    } else {
        lemma_receives_in_app(a, b.drop_last());
        assert((a + b).drop_last() =~= a + b.drop_last());
        assert((a + b).last() == b.last());
    }
}

/// How one appended call changes the close, receive and success counts and
/// the transmit run.
pub proof fn lemma_push_facts(s: Seq<Call>, c: Call)
    ensures
        closes_in(s.push(c)) == closes_in(s) + (match c {
            Call::Close { .. } => 1nat,
            _ => 0nat,
        }),
        receives_in(s.push(c)) == receives_in(s) + (match c {
            Call::Receive { .. } => 1nat,
            _ => 0nat,
        }),
        successes_in(s.push(c)) == successes_in(s) + (match c {
            Call::Transmit { ok, .. } => if ok {
                1nat
            } else {
                0nat
            },
            _ => 0nat,
        }),
        transmits_of(s.push(c)) == (match c {
            Call::Transmit { frame, .. } => transmits_of(s).push(frame),
            _ => transmits_of(s),
        }),
{
    assert(s.push(c).drop_last() =~= s);
    assert(s.push(c).last() == c);
}

/// An open call already in the log stays in it when the log grows by one.
pub proof fn lemma_has_open_push(s: Seq<Call>, c: Call)
    requires
        has_open(s),
    ensures
        has_open(s.push(c)),
{
    let i = choose|i: int| 0 <= i < s.len() && ((#[trigger] s[i]) matches Call::Open { .. });
    assert(s.push(c)[i] == s[i]);
}

/// An open call already in the log stays in it when the log grows.
pub proof fn lemma_has_open_app(s: Seq<Call>, t: Seq<Call>)
    requires
        has_open(s),
    ensures
        has_open(s + t),
{
    let i = choose|i: int| 0 <= i < s.len() && ((#[trigger] s[i]) matches Call::Open { .. });
    assert((s + t)[i] == s[i]);
}

/// An init call already in the log stays in it when the log grows by one.
pub proof fn lemma_has_init_push(s: Seq<Call>, c: Call, channel: u32)
    requires
        has_init(s, channel),
    ensures
        has_init(s.push(c), channel),
{
    let i = choose|i: int|
        0 <= i < s.len() && ((#[trigger] s[i]) matches Call::Init { channel: ch, .. } && ch
            == channel);
    assert(s.push(c)[i] == s[i]);
}

/// An init call already in the log stays in it when the log grows.
pub proof fn lemma_has_init_app(s: Seq<Call>, t: Seq<Call>, channel: u32)
    requires
        has_init(s, channel),
    ensures
        has_init(s + t, channel),
{
    let i = choose|i: int|
        0 <= i < s.len() && ((#[trigger] s[i]) matches Call::Init { channel: ch, .. } && ch
            == channel);
    assert((s + t)[i] == s[i]);
}

/// A log made of transmit calls alone contributes exactly its frames, in
/// order, and holds no close and no receive.
pub proof fn lemma_transmit_only_run(s: Seq<Call>)
    requires
        forall|j: int| 0 <= j < s.len() ==> (#[trigger] s[j]) matches Call::Transmit { .. },
    ensures
        closes_in(s) == 0,
        receives_in(s) == 0,
        transmits_of(s).len() == s.len(),
        forall|j: int|
            0 <= j < s.len() ==> ((#[trigger] s[j]) matches Call::Transmit { frame, .. } && frame
                == transmits_of(s)[j]),
    decreases s.len(),
{
    if s.len() > 0 {
        assert(s[s.len() - 1] matches Call::Transmit { .. });
        assert(forall|j: int| 0 <= j < s.drop_last().len() ==> #[trigger] s.drop_last()[j] == s[j]);
        lemma_transmit_only_run(s.drop_last());
        match s.last() {
            Call::Transmit { frame, .. } => {
                assert(transmits_of(s) == transmits_of(s.drop_last()).push(frame));
                assert forall|j: int| 0 <= j < s.len() implies ((#[trigger] s[j])
                    matches Call::Transmit { frame: fj, .. } && fj == transmits_of(s)[j]) by {
                    if j < s.len() - 1 {
                        assert(transmits_of(s)[j] == transmits_of(s.drop_last())[j]);
                        assert(s.drop_last()[j] == s[j]);
                    } else {
                        assert(transmits_of(s)[j] == frame);
                    }
                }
            }
            _ => {}
        }
    }
}

/// A log made of receive calls alone transmits nothing and closes nothing.
pub proof fn lemma_receive_only_run(s: Seq<Call>)
    requires
        forall|j: int| 0 <= j < s.len() ==> (#[trigger] s[j]) matches Call::Receive { .. },
    ensures
        closes_in(s) == 0,
        receives_in(s) == s.len(),
        transmits_of(s) == Seq::<Frame>::empty(),
    decreases s.len(),
{
    if s.len() > 0 {
        assert(forall|j: int| 0 <= j < s.drop_last().len() ==> #[trigger] s.drop_last()[j] == s[j]);
        lemma_receive_only_run(s.drop_last());
        assert(s[s.len() - 1] matches Call::Receive { .. });
    }
}

/// The hardware access layer: open/close a device, configure and start its
/// channels, exchange frames. Each operation records itself in the log,
/// arguments and returned status included; no assumption is made about which
/// status comes back.
pub trait Driver: Sized {
    /// Implementation invariant, preserved by every operation. The default
    /// stands in for implementations outside the verified library; every
    /// implementation inside it overrides the ghost state.
    open spec fn inv(&self) -> bool {
        true
    }

    /// Every driver-level call made so far, oldest first.
    open spec fn log(&self) -> Seq<Call> {
        Seq::empty()
    }

    /// Every frame handed out by receive calls so far, oldest first.
    open spec fn delivered(&self) -> Seq<Frame> {
        Seq::empty()
    }

    /// Open the device; true on a success status.
    fn open_device(&mut self, dev_type: u32, dev_index: u32) -> (ok: bool)
        requires
            old(self).inv(),
        ensures
            final(self).inv(),
            final(self).log() == old(self).log().push(Call::Open { dev_type, dev_index, ok }),
            final(self).delivered() == old(self).delivered(),
    ;

    /// Release the device; true on a success status.
    fn close_device(&mut self, dev_type: u32, dev_index: u32) -> (ok: bool)
        requires
            old(self).inv(),
        ensures
            final(self).inv(),
            final(self).log() == old(self).log().push(Call::Close { dev_type, dev_index, ok }),
            final(self).delivered() == old(self).delivered(),
    ;

    /// Apply `config` to one channel; true on a success status.
    fn init_channel(
        &mut self,
        dev_type: u32,
        dev_index: u32,
        channel: u32,
        config: &ChannelConfig,
    ) -> (ok: bool)
        requires
            old(self).inv(),
        ensures
            final(self).inv(),
            final(self).log() == old(self).log().push(
                (Call::Init { dev_type, dev_index, channel, config: *config, ok }),
            ),
            final(self).delivered() == old(self).delivered(),
    ;

    /// Start one configured channel; true on a success status.
    fn start_channel(&mut self, dev_type: u32, dev_index: u32, channel: u32) -> (ok: bool)
        requires
            old(self).inv(),
        ensures
            final(self).inv(),
            final(self).log() == old(self).log().push(
                (Call::Start { dev_type, dev_index, channel, ok }),
            ),
            final(self).delivered() == old(self).delivered(),
    ;

    /// Queue one frame for sending on a channel; true when the driver reports
    /// that a frame went out.
    fn transmit(&mut self, dev_type: u32, dev_index: u32, channel: u32, frame: &Frame) -> (ok:
        bool)
        requires
            old(self).inv(),
            frame.wf(),
        ensures
            final(self).inv(),
            final(self).log() == old(self).log().push(
                (Call::Transmit { dev_type, dev_index, channel, frame: *frame, ok }),
            ),
            final(self).delivered() == old(self).delivered(),
    ;

    /// Wait up to `timeout_ms` for inbound frames on a channel, handing back
    /// at most `max_frames` well-formed frames.
    fn receive(
        &mut self,
        dev_type: u32,
        dev_index: u32,
        channel: u32,
        max_frames: u32,
        timeout_ms: u32,
    ) -> (frames: Vec<Frame>)
        requires
            old(self).inv(),
        ensures
            final(self).inv(),
            final(self).log() == old(self).log().push(
                (Call::Receive { dev_type, dev_index, channel, max_frames, timeout_ms }),
            ),
            final(self).delivered() == old(self).delivered() + frames@,
            frames@.len() <= max_frames,
            forall|i: int| 0 <= i < frames@.len() ==> frames@[i].wf(),
    ;
}

} // verus!
