use vstd::prelude::*;

verus! {

/// Addressable 5 V strips (one color per LED) or plain 12 V strips (one color for all).
#[derive(Debug, Clone, Copy, PartialEq, Eq, Structural)]
pub enum ZoneKind {
    Argb,
    Rgb,
}

/// A header on the board as a profile describes it.
#[derive(Debug, PartialEq, Eq)]
pub struct ZoneProfile {
    pub name: String,
    pub kind: ZoneKind,
    /// LED slots that the protocol reserves for this header.
    pub capacity: usize,
    /// LEDs of those slots that are driven.
    pub active_led_count: usize,
}

impl Clone for ZoneProfile {
    fn clone(&self) -> (copy: Self)
        ensures
            copy == *self,
    {
        ZoneProfile {
            name: self.name.clone(),
            kind: self.kind,
            capacity: self.capacity,
            active_led_count: self.active_led_count,
        }
    }
}

/// A header placed in the device's LED index space.
#[derive(Debug, Clone, PartialEq, Eq)]
pub struct Zone {
    pub id: usize,
    pub name: String,
    pub kind: ZoneKind,
    /// Index of the zone's first LED slot.
    pub offset: usize,
    pub capacity: usize,
    pub active_led_count: usize,
}

} // verus!
