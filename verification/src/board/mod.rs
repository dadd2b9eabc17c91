pub mod capabilities;
pub mod device;
pub mod lamp;
pub mod topology;
pub mod zone;

pub use crate::lighting::{Frame, Rgb};
pub use capabilities::DeviceCapabilities;
pub use device::{BoardProfile, BrandId, ProtocolKind, UsbMatch};
pub use lamp::{LedInfo, Position};
pub use topology::{Topology, TopologyError};
pub use zone::{Zone, ZoneKind, ZoneProfile};
