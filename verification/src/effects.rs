use vstd::prelude::*;

use crate::board::topology::Topology;
use crate::board::zone::ZoneKind;
use crate::lighting::Rgb;

verus! {

/// The animations the scheduler can run.
#[derive(Debug, Clone, Copy, PartialEq, Eq, Structural)]
pub enum EffectKind {
    /// Keep every LED on with the primary color.
    Solid,
    /// Move a full-spectrum gradient across the LEDs.
    Rainbow,
    /// Fade the primary color in and out.
    Breathing,
    /// Move a primary/secondary color wave across the LEDs.
    Wave,
    /// Change the whole array through the color wheel.
    Cycle,
}

/// Where an LED lies for spatial effects.
#[derive(Debug, Clone, Copy, PartialEq, Eq, Structural)]
pub enum SpatialSlot {
    /// In an addressable zone: the LED's index within its zone, so that the
    /// pattern restarts at every such zone.
    ZoneStep(usize),
    /// In a plain RGB zone: all its LEDs stay in phase.
    InPhase,
    /// The LED names no zone of the topology: its board position is used.
    Fallback,
}

/// The slot of LED `led_id`, which belongs to zone `zone_id`.
pub open spec fn spec_spatial_slot(topology: Topology, led_id: usize, zone_id: usize) -> SpatialSlot {
    if zone_id < topology@.1.len() {
        let zone = topology@.1[zone_id as int];
        match zone.kind {
            ZoneKind::Argb => SpatialSlot::ZoneStep(
                if led_id >= zone.offset {
                    (led_id - zone.offset) as usize
                } else {
                    0
                },
            ),
            ZoneKind::Rgb => SpatialSlot::InPhase,
        }
    } else {
        SpatialSlot::Fallback
    }
}

/// The spatial slot of an LED: its index within an addressable zone, the same
/// phase for a plain RGB zone, or the board position when its zone is unknown.
pub fn zone_spatial_slot(topology: &Topology, led_id: usize, zone_id: usize) -> (slot: SpatialSlot)
    ensures
        slot == spec_spatial_slot(*topology, led_id, zone_id),
{
    let zones = topology.zones();
    if zone_id < zones.len() {
        let zone = &zones[zone_id];
        match zone.kind {
            ZoneKind::Argb => SpatialSlot::ZoneStep(led_id.saturating_sub(zone.offset)),
            ZoneKind::Rgb => SpatialSlot::InPhase,
        }
    } else {
        SpatialSlot::Fallback
    }
}

/// Where an LED lies for spatial effects: in an addressable zone, at or after
/// the zone's first slot, its slot is its distance from that first slot; before
/// it, the zone's start; in a plain RGB zone all LEDs share one phase; and an
/// LED whose zone is not in the topology falls back to its board position.
pub proof fn lemma_spatial_slot_is_index_in_zone(topology: Topology, led_id: usize, zone_id: usize)
    ensures
        zone_id >= topology@.1.len() ==> spec_spatial_slot(topology, led_id, zone_id)
            == SpatialSlot::Fallback,
        zone_id < topology@.1.len() && topology@.1[zone_id as int].kind == ZoneKind::Rgb
            ==> spec_spatial_slot(topology, led_id, zone_id) == SpatialSlot::InPhase,
        zone_id < topology@.1.len() && topology@.1[zone_id as int].kind == ZoneKind::Argb
            && led_id >= topology@.1[zone_id as int].offset ==> (spec_spatial_slot(
            topology,
            led_id,
            zone_id,
        ) matches SpatialSlot::ZoneStep(k) && k + topology@.1[zone_id as int].offset == led_id),
        zone_id < topology@.1.len() && topology@.1[zone_id as int].kind == ZoneKind::Argb
            && led_id < topology@.1[zone_id as int].offset ==> spec_spatial_slot(
            topology,
            led_id,
            zone_id,
        ) == SpatialSlot::ZoneStep(0),
{
}

/// Along an addressable zone the slots count up one LED at a time: the next
/// LED gets the next slot, and two different LEDs of the zone (at or after its
/// first slot) never share a slot, so a gradient runs across the whole strip.
pub proof fn lemma_spatial_slots_count_up(topology: Topology, a: usize, b: usize, zone_id: usize)
    requires
        zone_id < topology@.1.len(),
        topology@.1[zone_id as int].kind == ZoneKind::Argb,
        a >= topology@.1[zone_id as int].offset,
        b >= topology@.1[zone_id as int].offset,
    ensures
        a != b ==> spec_spatial_slot(topology, a, zone_id) != spec_spatial_slot(topology, b, zone_id),
        b == a + 1 ==> (spec_spatial_slot(topology, a, zone_id) matches SpatialSlot::ZoneStep(k)
            && spec_spatial_slot(topology, b, zone_id) == SpatialSlot::ZoneStep((k + 1) as usize)),
{
    lemma_spatial_slot_is_index_in_zone(topology, a, zone_id);
    lemma_spatial_slot_is_index_in_zone(topology, b, zone_id);
}

/// The color of a point on the color wheel, given its sixth of the wheel and
/// the rising and falling channel values within that sixth.
pub open spec fn spec_wheel_color(sector: u8, up: u8, down: u8) -> Rgb {
    if sector == 0 {
        Rgb { red: 255, green: up, blue: 0 }
    } else if sector == 1 {
        Rgb { red: down, green: 255, blue: 0 }
    } else if sector == 2 {
        Rgb { red: 0, green: 255, blue: up }
    } else if sector == 3 {
        Rgb { red: 0, green: down, blue: 255 }
    } else if sector == 4 {
        Rgb { red: up, green: 0, blue: 255 }
    } else {
        Rgb { red: 255, green: 0, blue: down }
    }
}

/// A color of the wheel: red to yellow, green, cyan, blue, magenta and back.
pub fn wheel_color(sector: u8, up: u8, down: u8) -> (color: Rgb)
    ensures
        color == spec_wheel_color(sector, up, down),
{
    match sector {
        0 => Rgb { red: 255, green: up, blue: 0 },
        1 => Rgb { red: down, green: 255, blue: 0 },
        2 => Rgb { red: 0, green: 255, blue: up },
        3 => Rgb { red: 0, green: down, blue: 255 },
        4 => Rgb { red: up, green: 0, blue: 255 },
        _ => Rgb { red: 255, green: 0, blue: down },
    }
}

/// Every color of the wheel is fully saturated: one channel is at 255 and
/// one at 0.
pub proof fn lemma_wheel_colors_are_saturated(sector: u8, up: u8, down: u8)
    ensures
        ({
            let c = spec_wheel_color(sector, up, down);
            &&& (c.red == 255 || c.green == 255 || c.blue == 255)
            &&& (c.red == 0 || c.green == 0 || c.blue == 0)
        }),
{
}

} // verus!
