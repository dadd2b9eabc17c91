use vstd::prelude::*;

verus! {

/// What a controller can do.
#[derive(Debug, Clone, Copy, PartialEq, Eq, Structural)]
pub struct DeviceCapabilities {
    pub direct_rgb: bool,
    pub per_led: bool,
    pub max_leds: usize,
    /// Shortest time between two frames, in microseconds.
    pub min_update_interval_us: u64,
    pub supports_readback: bool,
}

} // verus!
