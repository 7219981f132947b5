//! The remaining capability boundaries around the session: the shared
//! cancellation flag, the keyboard-like cancellation source, the report sink
//! and the pacing clock.

use vstd::prelude::*;

verus! {

/// The shared cancellation flag. It is monotonic: once set it is never
/// observed clear again. It also carries a liveness bound: `patience` caps
/// how often a poll may still read false, so every loop that re-checks the
/// flag each iteration terminates within `patience` polls of its start. The
/// `raises` count records how often this handle wrote the flag, so a
/// contract can say which activities only ever observe it.
pub trait CancelFlag: Sized {
    /// Whether cancellation has been requested. The default stands in for
    /// implementations outside the verified library; every implementation
    /// inside it overrides the ghost state.
    open spec fn is_set(&self) -> bool {
        true
    }

    /// How many more polls may read false before the flag is seen set.
    open spec fn patience(&self) -> nat {
        0
    }

    /// How often this handle has raised the flag.
    open spec fn raises(&self) -> nat {
        0
    }

    /// Read the flag; a poll never writes it.
    fn poll(&mut self) -> (set: bool)
        ensures
            set == final(self).is_set(),
            old(self).is_set() ==> final(self).is_set(),
            !set ==> final(self).patience() < old(self).patience(),
            final(self).raises() == old(self).raises(),
    ;

    /// Request cancellation; idempotent in the flag's value.
    fn raise(&mut self)
        ensures
            final(self).is_set(),
            final(self).raises() == old(self).raises() + 1,
    ;
}

/// A key press with its control modifier, as delivered by the cancellation
/// source.
#[derive(Clone, Copy, Debug, PartialEq, Eq)]
pub struct KeyEvent {
    pub ch: char,
    pub ctrl: bool,
}

/// The designated stop combination: Control + X.
pub open spec fn spec_is_stop_combo(k: KeyEvent) -> bool {
    k.ch == 'x' && k.ctrl
}

/// Whether one poll outcome is a key press of the stop combination.
pub open spec fn opt_is_stop(ev: Option<KeyEvent>) -> bool {
    ev matches Some(k) && spec_is_stop_combo(k)
}

/// Whether a key press is the designated stop combination, Control + X.
pub fn is_stop_combo(k: &KeyEvent) -> (stop: bool)
    ensures
        stop == spec_is_stop_combo(*k),
{
    k.ch == 'x' && k.ctrl
}

/// A lazy, unbounded stream of input events with a bounded per-poll timeout.
/// Nothing is assumed about which events arrive or when; `taken` records the
/// poll outcomes already handed out, so a consumer's contract can say what it
/// did with each.
pub trait CancelSource: Sized {
    /// Every poll outcome handed out so far, oldest first. The default
    /// stands in for implementations outside the verified library; every
    /// implementation inside it overrides the ghost state.
    open spec fn taken(&self) -> Seq<Option<KeyEvent>> {
        Seq::empty()
    }

    /// Wait up to `timeout_ms` for the next input event; `None` on timeout.
    fn poll_event(&mut self, timeout_ms: u64) -> (ev: Option<KeyEvent>)
        ensures
            final(self).taken() == old(self).taken().push(ev),
    ;
}

/// The output collaborator the activities report to.
pub trait FrameSink: Sized {
    /// Received frames reported so far: identifier and payload bytes. The
    /// default stands in for implementations outside the verified library;
    /// every implementation inside it overrides the ghost state.
    open spec fn received_reports(&self) -> Seq<(u32, Seq<u8>)> {
        Seq::empty()
    }

    /// Transmit outcomes reported so far: payload value and success.
    open spec fn sent_reports(&self) -> Seq<(u8, bool)> {
        Seq::empty()
    }

    /// Report one received frame.
    fn report_received(&mut self, id: u32, payload: Vec<u8>)
        ensures
            final(self).received_reports() == old(self).received_reports().push(
                (id, payload@),
            ),
            final(self).sent_reports() == old(self).sent_reports(),
    ;

    /// Report the outcome of sending one planned payload value.
    fn report_sent(&mut self, value: u8, ok: bool)
        ensures
            final(self).sent_reports() == old(self).sent_reports().push((value, ok)),
            final(self).received_reports() == old(self).received_reports(),
    ;
}

/// The pacing clock: a short fixed sleep between loop iterations.
pub trait Pacer: Sized {
    /// The durations of the pacing sleeps performed so far, in order. The
    /// default stands in for implementations outside the verified library;
    /// every implementation inside it overrides the ghost state.
    open spec fn slept(&self) -> Seq<u64> {
        Seq::empty()
    }

    /// Suspend the calling activity for about `ms` milliseconds.
    fn sleep_ms(&mut self, ms: u64)
        ensures
            final(self).slept() == old(self).slept().push(ms),
    ;
}

} // verus!
