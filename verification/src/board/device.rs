use vstd::prelude::*;

use super::capabilities::DeviceCapabilities;
use super::topology::{capacity_sum, spec_from_profiles, Topology, TopologyError};
use super::zone::ZoneProfile;

verus! {

/// The board makers that a driver family exists for.
#[derive(Debug, Clone, Copy, PartialEq, Eq, Structural)]
pub enum BrandId {
    Colorful,
}

/// The wire protocols that a controller can speak.
#[derive(Debug, Clone, Copy, PartialEq, Eq, Structural)]
pub enum ProtocolKind {
    Colorful088,
}

/// The USB device and interface of a board's RGB controller.
#[derive(Debug, Clone, Copy, PartialEq, Eq, Structural)]
pub struct UsbMatch {
    pub vendor_id: u16,
    pub product_id: u16,
    pub interface: u8,
}

/// Everything the driver knows about one board model.
#[derive(Debug, PartialEq, Eq)]
pub struct BoardProfile {
    pub brand: BrandId,
    pub model: String,
    pub revision: Option<String>,
    pub usb_match: UsbMatch,
    pub protocol: ProtocolKind,
    pub zones: Vec<ZoneProfile>,
    pub capabilities: DeviceCapabilities,
}

impl Clone for BoardProfile {
    fn clone(&self) -> (copy: Self)
        ensures
            copy.same_as(*self),
    {
        let revision = match &self.revision {
            Some(revision) => Some(revision.clone()),
            None => None,
        };
        let mut zones: Vec<ZoneProfile> = Vec::with_capacity(self.zones.len());
        let mut i: usize = 0;
        while i < self.zones.len()
            invariant
                i <= self.zones@.len(),
                zones@ == self.zones@.take(i as int),
            decreases self.zones@.len() - i,
        {
            zones.push(self.zones[i].clone());
            i = i + 1;
            assert(zones@ =~= self.zones@.take(i as int));
        }
        assert(self.zones@.take(self.zones@.len() as int) =~= self.zones@);
        let copy = BoardProfile {
            brand: self.brand,
            model: self.model.clone(),
            revision,
            usb_match: self.usb_match,
            protocol: self.protocol,
            zones,
            capabilities: self.capabilities,
        };
        copy
    }
}

impl BoardProfile {
    /// The two profiles hold the same values (the zone lists compared by content).
    pub open spec fn same_as(self, other: BoardProfile) -> bool {
        &&& self.brand == other.brand
        &&& self.model == other.model
        &&& self.revision == other.revision
        &&& self.usb_match == other.usb_match
        &&& self.protocol == other.protocol
        &&& self.zones@ == other.zones@
        &&& self.capabilities == other.capabilities
    }

    /// The topology of the profile's zones.
    pub fn topology(&self) -> (topology: Result<Topology, TopologyError>)
        requires
            capacity_sum(self.zones@) <= usize::MAX,
        ensures
            spec_from_profiles(self.zones@, topology),
    {
        Topology::from_profiles(self.zones.as_slice())
    }
}

} // verus!
