//! Dual-channel CAN bus session library.
//!
//! The library models a bounded frame-exchange session over a two-channel CAN
//! device: a lifecycle state machine that takes the device from closed through
//! configured and started to running and back to closed, and the three
//! activities (transmitter, receiver, cancellation watcher) that run while the
//! session is live. The hardware access layer, the pacing clock, the shared
//! cancellation flag and the keyboard-like cancellation source are capability
//! traits, so the session logic is verified once and runs against either the
//! real device bindings or scripted test doubles.

pub mod activities;
pub mod driver;
pub mod fake;
pub mod frame;
pub mod ports;
pub mod session;

use vstd::prelude::*;

verus! {

/// Device type code of the supported CAN adapter.
pub const DEVICE_TYPE: u32 = 4;

/// Index of the device on the host.
pub const DEVICE_INDEX: u32 = 0;

/// First logical channel of the adapter.
pub const CHANNEL0: u32 = 0;

/// Second logical channel of the adapter.
pub const CHANNEL1: u32 = 1;

} // verus!
