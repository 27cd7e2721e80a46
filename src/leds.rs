//! Host-reported indicator state and the level of the pins that show it.
//!
//! The host, not the keyboard, decides whether caps lock is on; the keyboard
//! only mirrors what it is told.
use vstd::prelude::*;

verus! {

/// Level at which to drive an output pin.
#[derive(Clone, Copy, Debug, PartialEq, Eq, Structural)]
pub enum PinLevel {
    High,
    Low,
}

/// The level that shows an indicator in state `on`: high lights the LED.
pub open spec fn level_for(on: bool) -> PinLevel {
    if on {
        PinLevel::High
    } else {
        PinLevel::Low
    }
}

/// Indicator state as last reported by the host.
pub struct LedState {
    caps_lock: bool,
}

impl LedState {
    /// Whether the host last reported caps lock on.
    pub closed spec fn caps_lock_spec(&self) -> bool {
        self.caps_lock
    }

    /// Caps lock off, as before the host says anything.
    pub fn new() -> (r: LedState)
        ensures
            !r.caps_lock_spec(),
    {
        LedState { caps_lock: false }
    }

    /// Records the caps lock state reported by the host and returns the level
    /// at which to drive the caps lock LED.
    pub fn caps_lock(&mut self, status: bool) -> (r: PinLevel)
        ensures
            final(self).caps_lock_spec() == status,
            r == level_for(status),
    {
        self.caps_lock = status;
        if status {
            PinLevel::High
        } else {
            PinLevel::Low
        }
    }

    /// Whether the host last reported caps lock on.
    pub fn is_caps_lock_on(&self) -> (r: bool)
        ensures
            r == self.caps_lock_spec(),
    {
        self.caps_lock
    }

    /// The level at which the caps lock LED should stand now.
    pub fn caps_lock_level(&self) -> (r: PinLevel)
        ensures
            r == level_for(self.caps_lock_spec()),
    {
        if self.caps_lock {
            PinLevel::High
        } else {
            PinLevel::Low
        }
    }
}

} // verus!
