pub mod colorful;

use vstd::prelude::*;

use crate::board::device::{BoardProfile, BrandId};
use crate::board::topology::{spec_from_profiles, Topology, TopologyError};
use crate::config::{brand_matches, select_outcome, ConfigError, ProfileCatalog};
use crate::drivers::colorful::ColorfulFamilyDriver;
use crate::protocol::CodecError;
use crate::smbios::BoardIdentity;
use crate::text::{contains_chars, normalize_str};

verus! {

/// Why no driver could be set up, or a frame could not be sent.
#[derive(Debug, Clone, PartialEq, Eq)]
pub enum DriverError {
    /// No driver handles boards of this vendor.
    UnsupportedVendor { vendor: String, model: String },
    /// The profile could not be chosen.
    Config(ConfigError),
    /// The frame does not hold one color per LED of the board.
    FrameLength { expected: usize, got: usize },
    /// The frame could not be encoded.
    Codec(CodecError),
}

/// The driver families, each with the profile it was set up for.
pub enum BoardDriver {
    Colorful(ColorfulFamilyDriver),
}

/// The board's vendor is Colorful: its letters and digits contain "colorful".
pub open spec fn vendor_is_colorful_spec(vendor: Seq<char>) -> bool {
    brand_matches(BrandId::Colorful, vendor)
}

fn vendor_is_colorful(vendor: &str) -> (colorful: bool)
    ensures
        colorful == vendor_is_colorful_spec(vendor@),
{
    let normalized = normalize_str(vendor);
    let colorful = vec!['c', 'o', 'l', 'o', 'r', 'f', 'u', 'l'];
    assert(colorful@ =~= seq!['c', 'o', 'l', 'o', 'r', 'f', 'u', 'l']);
    contains_chars(&normalized, &colorful)
}

impl View for BoardDriver {
    type V = BoardProfile;

    closed spec fn view(&self) -> BoardProfile {
        match self {
            BoardDriver::Colorful(driver) => driver@,
        }
    }
}

impl BoardDriver {
    /// The driver family for the board's vendor; boards of other vendors are refused.
    pub fn brand_for_identity(identity: &BoardIdentity) -> (brand: Result<BrandId, DriverError>)
        ensures
            match brand {
                Ok(b) => b == BrandId::Colorful && vendor_is_colorful_spec(identity.vendor@),
                Err(DriverError::UnsupportedVendor { vendor, model }) => !vendor_is_colorful_spec(
                    identity.vendor@,
                ) && vendor == identity.vendor && model == identity.model,
                Err(_) => false,
            },
    {
        if vendor_is_colorful(identity.vendor.as_str()) {
            Ok(BrandId::Colorful)
        } else {
            Err(DriverError::UnsupportedVendor { vendor: identity.vendor.clone(), model: identity.model.clone() })
        }
    }

    /// The driver for the board: its vendor picks the family, then the family
    /// picks its profile from the catalog (by `requested`, else by identity).
    pub fn load_for_identity(catalog: &ProfileCatalog, identity: &BoardIdentity, requested_profile: Option<&str>) -> (driver: Result<BoardDriver, DriverError>)
        ensures
            !vendor_is_colorful_spec(identity.vendor@) ==> (driver matches Err(
                DriverError::UnsupportedVendor { vendor, model },
            ) && vendor == identity.vendor && model == identity.model),
            vendor_is_colorful_spec(identity.vendor@) ==> match driver {
                Ok(d) => select_outcome(
                    catalog@,
                    match requested_profile {
                        Some(r) => Some(r@),
                        None => None,
                    },
                    BrandId::Colorful,
                    Some(*identity),
                    Ok::<BoardProfile, ConfigError>(d@),
                ),
                Err(DriverError::Config(e)) => select_outcome(
                    catalog@,
                    match requested_profile {
                        Some(r) => Some(r@),
                        None => None,
                    },
                    BrandId::Colorful,
                    Some(*identity),
                    Err::<BoardProfile, ConfigError>(e),
                ),
                Err(_) => false,
            },
    {
        match Self::brand_for_identity(identity) {
            Ok(BrandId::Colorful) => match ColorfulFamilyDriver::load_for_identity(catalog, identity, requested_profile) {
                Ok(driver) => Ok(BoardDriver::Colorful(driver)),
                Err(e) => Err(e),
            },
            Err(e) => Err(e),
        }
    }

    /// The profile the driver was set up for.
    pub fn profile(&self) -> (profile: &BoardProfile)
        ensures
            *profile == self@,
    {
        match self {
            BoardDriver::Colorful(driver) => driver.profile(),
        }
    }

    /// The topology of the driver's profile.
    pub fn topology(&self) -> (topology: Result<Topology, TopologyError>)
        ensures
            spec_from_profiles(self@.zones@, topology),
    {
        match self {
            BoardDriver::Colorful(driver) => driver.topology(),
        }
    }
}

} // verus!
