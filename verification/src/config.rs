use vstd::prelude::*;

use crate::board::capabilities::DeviceCapabilities;
use crate::board::device::{BoardProfile, BrandId, ProtocolKind, UsbMatch};
use crate::board::topology::{
    active_sum, capacity_sum, lemma_capacity_sum_prefix, lemma_capacity_sum_step,
    lemma_led_count_is_active_sum, spec_from_profiles, zones_fit, Topology, TopologyError,
};
use crate::board::zone::{ZoneKind, ZoneProfile};
use crate::smbios::BoardIdentity;
use crate::text::{
    chars_equal, chars_of, contains, contains_chars, is_blank, lower, lower_chars, normalize,
    normalize_str, string_from_chars, trim, trim_lower,
};

verus! {

/// Why a board profile was refused or could not be chosen.
#[derive(Debug, Clone, PartialEq, Eq)]
pub enum ConfigError {
    /// The catalog was given no profile at all.
    NoProfiles,
    /// The profile names a vendor that no driver handles (trimmed, lowercased).
    UnsupportedVendor { vendor: String },
    /// The profile names a protocol that no driver speaks (trimmed, lowercased).
    UnsupportedProtocol { protocol: String },
    /// The profile's model is blank.
    EmptyModel,
    /// The profile's zones reserve no LED slot.
    NoLeds,
    /// `max_leds` is below the LED slots that the zones reserve.
    MaxLedsTooSmall { max_leds: usize, led_count: usize },
    /// A zone names a kind other than `argb` or `rgb` (trimmed, lowercased).
    UnsupportedZoneKind { kind: String },
    /// A zone's name is blank.
    EmptyZoneName,
    /// A zone reserves no LED slot.
    ZeroCapacity { zone: String },
    /// A zone drives more LEDs than it has slots.
    ActiveExceedsCapacity { zone: String },
    /// No profile of the catalog is for this brand.
    NoProfileForBrand { brand: BrandId },
    /// No profile of the brand has the requested name (lowercased).
    ProfileNotFound { requested: String },
    /// A profile can be chosen automatically only from the board's identity.
    IdentityRequired,
    /// Not exactly one profile of the brand matches the board's identity.
    NoUniqueMatch { brand: BrandId, vendor: String, model: String },
}

/// `[usb_match]` of a profile file.
#[derive(Debug, Clone, Copy, PartialEq, Eq, Structural)]
pub struct RawUsbMatch {
    pub vendor_id: u16,
    pub product_id: u16,
    pub interface: u8,
}

/// A `[[zones]]` entry of a profile file.
#[derive(Debug, PartialEq, Eq)]
pub struct RawZoneProfile {
    pub name: String,
    pub kind: String,
    pub capacity: usize,
    pub active_led_count: Option<usize>,
}

impl Clone for RawZoneProfile {
    fn clone(&self) -> (copy: Self)
        ensures
            copy == *self,
    {
        RawZoneProfile {
            name: self.name.clone(),
            kind: self.kind.clone(),
            capacity: self.capacity,
            active_led_count: self.active_led_count,
        }
    }
}

/// `[capabilities]` of a profile file.
#[derive(Debug, Clone, Copy, PartialEq, Eq, Structural)]
pub struct RawCapabilities {
    pub direct_rgb: bool,
    pub per_led: bool,
    pub max_leds: Option<usize>,
    pub min_update_interval_us: Option<u64>,
    pub supports_readback: bool,
}

/// A capability flag that a profile leaves out is on.
pub fn default_true() -> (flag: bool)
    ensures
        flag,
{
    true
}

impl Default for RawCapabilities {
    /// Direct and per-LED color on, no readback, limits taken from the zones.
    fn default() -> (capabilities: Self)
        ensures
            capabilities == (RawCapabilities {
                direct_rgb: true,
                per_led: true,
                max_leds: None,
                min_update_interval_us: None,
                supports_readback: false,
            }),
    {
        RawCapabilities {
            direct_rgb: default_true(),
            per_led: default_true(),
            max_leds: None,
            min_update_interval_us: None,
            supports_readback: false,
        }
    }
}

/// A profile file as it was read.
#[derive(Debug, PartialEq, Eq)]
pub struct RawBoardProfile {
    pub vendor: String,
    pub model: String,
    pub revision: Option<String>,
    pub usb_match: RawUsbMatch,
    pub protocol: String,
    pub zones: Vec<RawZoneProfile>,
    pub capabilities: RawCapabilities,
}

/// Frame interval of a profile that sets none, in microseconds.
pub const DEFAULT_MIN_UPDATE_INTERVAL_US: u64 = 16_667;

/// The zone kind a profile keyword names, if any.
pub open spec fn spec_zone_kind(kind: Seq<char>) -> Option<ZoneKind> {
    let keyword = lower(trim(kind));
    if keyword == seq!['a', 'r', 'g', 'b'] {
        Some(ZoneKind::Argb)
    } else if keyword == seq!['r', 'g', 'b'] {
        Some(ZoneKind::Rgb)
    } else {
        None
    }
}

/// The brand a profile's vendor names, if any.
pub open spec fn spec_brand(vendor: Seq<char>) -> Option<BrandId> {
    if lower(trim(vendor)) == seq!['c', 'o', 'l', 'o', 'r', 'f', 'u', 'l'] {
        Some(BrandId::Colorful)
    } else {
        None
    }
}

/// The protocol a profile names, if any.
pub open spec fn spec_protocol(protocol: Seq<char>) -> Option<ProtocolKind> {
    let keyword = lower(trim(protocol));
    if keyword == seq!['c', 'o', 'l', 'o', 'r', 'f', 'u', 'l', '-', '0', '8', '8'] || keyword
        == seq!['c', 'o', 'l', 'o', 'r', 'f', 'u', 'l', '0', '8', '8'] || keyword == seq![
        'c',
        'o',
        'l',
        'o',
        'r',
        'f',
        'u',
        'l',
        ' ',
        '0',
        '8',
        '8',
    ] {
        Some(ProtocolKind::Colorful088)
    } else {
        None
    }
}

/// LEDs a zone drives: the given count, or all of its slots.
pub open spec fn raw_active(raw: RawZoneProfile) -> usize {
    match raw.active_led_count {
        Some(active) => active,
        None => raw.capacity,
    }
}

/// The zone is accepted: a known kind, a name that is not blank, at least one
/// slot, and no more driven LEDs than slots.
pub open spec fn zone_accepted(raw: RawZoneProfile) -> bool {
    &&& spec_zone_kind(raw.kind@) is Some
    &&& trim(raw.name@).len() > 0
    &&& raw.capacity > 0
    &&& raw_active(raw) <= raw.capacity
}

/// The zone profile that an accepted zone becomes.
pub open spec fn accepted_zone(raw: RawZoneProfile) -> ZoneProfile {
    ZoneProfile {
        name: raw.name,
        kind: spec_zone_kind(raw.kind@)->Some_0,
        capacity: raw.capacity,
        active_led_count: raw_active(raw),
    }
}

/// What `RawZoneProfile::into_profile` gives: the checks run in the order kind,
/// name, capacity, driven count, and the first that fails names the error.
pub open spec fn zone_outcome(raw: RawZoneProfile, result: Result<ZoneProfile, ConfigError>) -> bool {
    if spec_zone_kind(raw.kind@) is None {
        result matches Err(ConfigError::UnsupportedZoneKind { kind }) && kind@ == lower(trim(raw.kind@))
    } else if trim(raw.name@).len() == 0 {
        result == Err::<ZoneProfile, ConfigError>(ConfigError::EmptyZoneName)
    } else if raw.capacity == 0 {
        result matches Err(ConfigError::ZeroCapacity { zone }) && zone == raw.name
    } else if raw_active(raw) > raw.capacity {
        result matches Err(ConfigError::ActiveExceedsCapacity { zone }) && zone == raw.name
    } else {
        result == Ok::<ZoneProfile, ConfigError>(accepted_zone(raw))
    }
}

/// An accepted zone entry keeps its name and slot count, and drives the LED
/// count it gives; only an entry that gives none drives all its slots. An
/// `argb` kind makes an addressable zone and an `rgb` kind a plain one.
pub proof fn lemma_accepted_zone_keeps_counts(raw: RawZoneProfile)
    requires
        zone_accepted(raw),
    ensures
        accepted_zone(raw).name == raw.name,
        accepted_zone(raw).capacity == raw.capacity,
        raw.active_led_count matches Some(a) ==> accepted_zone(raw).active_led_count == a,
        raw.active_led_count is None ==> accepted_zone(raw).active_led_count == raw.capacity,
        accepted_zone(raw).active_led_count <= accepted_zone(raw).capacity,
        lower(trim(raw.kind@)) == seq!['a', 'r', 'g', 'b'] ==> accepted_zone(raw).kind == ZoneKind::Argb,
        lower(trim(raw.kind@)) == seq!['r', 'g', 'b'] ==> accepted_zone(raw).kind == ZoneKind::Rgb,
{
}

/// Zone `i` of an accepted board profile keeps the name and slot count of the
/// file's zone entry `i` and drives the count that entry gives (all its slots
/// when it gives none).
pub proof fn lemma_accepted_board_keeps_zone_counts(raw: RawBoardProfile, profile: BoardProfile, i: int)
    requires
        board_outcome(raw, Ok::<BoardProfile, ConfigError>(profile)),
        0 <= i < raw.zones@.len(),
    ensures
        profile.zones@.len() == raw.zones@.len(),
        profile.zones@[i].name == raw.zones@[i].name,
        profile.zones@[i].capacity == raw.zones@[i].capacity,
        profile.zones@[i].active_led_count == match raw.zones@[i].active_led_count {
            Some(a) => a,
            None => raw.zones@[i].capacity,
        },
{
    assert(board_accepted(raw));
    assert(zone_accepted(raw.zones@[i]));
    lemma_accepted_zone_keeps_counts(raw.zones@[i]);
}

impl RawZoneProfile {
    /// Checks the zone entry and turns it into a zone profile.
    pub fn into_profile(self) -> (zone: Result<ZoneProfile, ConfigError>)
        ensures
            zone_outcome(self, zone),
            zone is Ok <==> zone_accepted(self),
            zone matches Ok(z) ==> z.name == self.name && z.capacity == self.capacity && match self.active_led_count {
                Some(a) => z.active_led_count == a,
                None => z.active_led_count == self.capacity,
            },
    {
        let keyword = trim_lower(self.kind.as_str());
        let kind = if chars_equal(&keyword, &vec!['a', 'r', 'g', 'b']) {
            ZoneKind::Argb
        } else if chars_equal(&keyword, &vec!['r', 'g', 'b']) {
            ZoneKind::Rgb
        } else {
            return Err(ConfigError::UnsupportedZoneKind { kind: string_from_chars(&keyword) });
        };
        if is_blank(self.name.as_str()) {
            return Err(ConfigError::EmptyZoneName);
        }
        if self.capacity == 0 {
            return Err(ConfigError::ZeroCapacity { zone: self.name });
        }
        let active_led_count = match self.active_led_count {
            Some(active) => active,
            None => self.capacity,
        };
        if active_led_count > self.capacity {
            return Err(ConfigError::ActiveExceedsCapacity { zone: self.name });
        }
        Ok(ZoneProfile { name: self.name, kind, capacity: self.capacity, active_led_count })
    }
}

/// Zone `i` is the first zone entry that is refused.
pub open spec fn first_rejected_zone(zones: Seq<RawZoneProfile>, i: int) -> bool {
    &&& 0 <= i < zones.len()
    &&& !zone_accepted(zones[i])
    &&& forall|j: int| 0 <= j < i ==> zone_accepted(#[trigger] zones[j])
}

/// Every zone entry is accepted.
pub open spec fn all_zones_accepted(zones: Seq<RawZoneProfile>) -> bool {
    forall|i: int| 0 <= i < zones.len() ==> zone_accepted(#[trigger] zones[i])
}

/// The zone profiles that accepted zone entries become.
pub open spec fn accepted_zones(zones: Seq<RawZoneProfile>) -> Seq<ZoneProfile> {
    zones.map_values(|z: RawZoneProfile| accepted_zone(z))
}

/// The `max_leds` a profile ends up with: the given one, or the zones' slot count.
pub open spec fn effective_max_leds(raw: RawBoardProfile) -> int {
    match raw.capabilities.max_leds {
        Some(max_leds) => max_leds as int,
        None => capacity_sum(accepted_zones(raw.zones@)) as int,
    }
}

/// The capabilities an accepted profile ends up with.
pub open spec fn effective_capabilities(raw: RawBoardProfile) -> DeviceCapabilities {
    DeviceCapabilities {
        direct_rgb: raw.capabilities.direct_rgb,
        per_led: raw.capabilities.per_led,
        max_leds: effective_max_leds(raw) as usize,
        min_update_interval_us: match raw.capabilities.min_update_interval_us {
            Some(us) => us,
            None => DEFAULT_MIN_UPDATE_INTERVAL_US,
        },
        supports_readback: raw.capabilities.supports_readback,
    }
}

/// What `RawBoardProfile::into_profile` gives: the checks run in the order
/// vendor, protocol, model, zones (first refused zone first), LED count and
/// `max_leds`, and the first that fails names the error.
pub open spec fn board_outcome(raw: RawBoardProfile, result: Result<BoardProfile, ConfigError>) -> bool {
    if spec_brand(raw.vendor@) is None {
        result matches Err(ConfigError::UnsupportedVendor { vendor }) && vendor@ == lower(
            trim(raw.vendor@),
        )
    } else if spec_protocol(raw.protocol@) is None {
        result matches Err(ConfigError::UnsupportedProtocol { protocol }) && protocol@ == lower(
            trim(raw.protocol@),
        )
    } else if trim(raw.model@).len() == 0 {
        result == Err::<BoardProfile, ConfigError>(ConfigError::EmptyModel)
    } else if !all_zones_accepted(raw.zones@) {
        exists|i: int|
            #[trigger] first_rejected_zone(raw.zones@, i) && (result matches Err(e) && zone_outcome(
                raw.zones@[i],
                Err::<ZoneProfile, ConfigError>(e),
            ))
    } else if capacity_sum(accepted_zones(raw.zones@)) == 0 {
        result == Err::<BoardProfile, ConfigError>(ConfigError::NoLeds)
    } else if effective_max_leds(raw) < capacity_sum(accepted_zones(raw.zones@)) {
        result == Err::<BoardProfile, ConfigError>(
            ConfigError::MaxLedsTooSmall {
                max_leds: effective_max_leds(raw) as usize,
                led_count: capacity_sum(accepted_zones(raw.zones@)) as usize,
            },
        )
    } else {
        result matches Ok(p) && {
            &&& p.brand == spec_brand(raw.vendor@)->Some_0
            &&& p.model == raw.model
            &&& p.revision == raw.revision
            &&& p.usb_match == (UsbMatch {
                vendor_id: raw.usb_match.vendor_id,
                product_id: raw.usb_match.product_id,
                interface: raw.usb_match.interface,
            })
            &&& p.protocol == spec_protocol(raw.protocol@)->Some_0
            &&& p.zones@ == accepted_zones(raw.zones@)
            &&& p.capabilities == effective_capabilities(raw)
        }
    }
}

/// The profile file is accepted by `RawBoardProfile::into_profile`.
pub open spec fn board_accepted(raw: RawBoardProfile) -> bool {
    &&& spec_brand(raw.vendor@) is Some
    &&& spec_protocol(raw.protocol@) is Some
    &&& trim(raw.model@).len() > 0
    &&& all_zones_accepted(raw.zones@)
    &&& capacity_sum(accepted_zones(raw.zones@)) > 0
    &&& effective_max_leds(raw) >= capacity_sum(accepted_zones(raw.zones@))
}

impl RawBoardProfile {
    /// Checks the profile file and turns it into a board profile.
    pub fn into_profile(self) -> (profile: Result<BoardProfile, ConfigError>)
        requires
            all_zones_accepted(self.zones@) ==> capacity_sum(accepted_zones(self.zones@))
                <= usize::MAX,
        ensures
            board_outcome(self, profile),
            profile is Ok <==> board_accepted(self),
            profile matches Ok(p) ==> 0 < capacity_sum(p.zones@) <= p.capabilities.max_leds,
    {
        let vendor = trim_lower(self.vendor.as_str());
        let colorful = vec!['c', 'o', 'l', 'o', 'r', 'f', 'u', 'l'];
        assert(colorful@ =~= seq!['c', 'o', 'l', 'o', 'r', 'f', 'u', 'l']);
        let brand = if chars_equal(&vendor, &colorful) {
            BrandId::Colorful
        } else {
            return Err(ConfigError::UnsupportedVendor { vendor: string_from_chars(&vendor) });
        };
        let keyword = trim_lower(self.protocol.as_str());
        let dashed = vec!['c', 'o', 'l', 'o', 'r', 'f', 'u', 'l', '-', '0', '8', '8'];
        let joined = vec!['c', 'o', 'l', 'o', 'r', 'f', 'u', 'l', '0', '8', '8'];
        let spaced = vec!['c', 'o', 'l', 'o', 'r', 'f', 'u', 'l', ' ', '0', '8', '8'];
        assert(dashed@ =~= seq!['c', 'o', 'l', 'o', 'r', 'f', 'u', 'l', '-', '0', '8', '8']);
        assert(joined@ =~= seq!['c', 'o', 'l', 'o', 'r', 'f', 'u', 'l', '0', '8', '8']);
        assert(spaced@ =~= seq!['c', 'o', 'l', 'o', 'r', 'f', 'u', 'l', ' ', '0', '8', '8']);
        let protocol = if chars_equal(&keyword, &dashed) || chars_equal(&keyword, &joined)
            || chars_equal(&keyword, &spaced) {
            ProtocolKind::Colorful088
        } else {
            return Err(ConfigError::UnsupportedProtocol { protocol: string_from_chars(&keyword) });
        };
        if is_blank(self.model.as_str()) {
            return Err(ConfigError::EmptyModel);
        }
        let n = self.zones.len();
        let mut zones: Vec<ZoneProfile> = Vec::with_capacity(n);
        let mut i: usize = 0;
        while i < n
            invariant
                n == self.zones@.len(),
                spec_brand(self.vendor@) is Some,
                spec_protocol(self.protocol@) is Some,
                trim(self.model@).len() > 0,
                i <= n,
                forall|j: int| 0 <= j < i ==> zone_accepted(#[trigger] self.zones@[j]),
                zones@ == accepted_zones(self.zones@.take(i as int)),
            decreases n - i,
        {
            let raw = self.zones[i].clone();
            match raw.into_profile() {
                Ok(zone) => zones.push(zone),
                Err(e) => {
                    assert(raw == self.zones@[i as int]);
                    assert(!zone_accepted(self.zones@[i as int]));
                    assert(!all_zones_accepted(self.zones@));
                    assert(first_rejected_zone(self.zones@, i as int));
                    return Err(e);
                },
            }
            i = i + 1;
            assert(zones@ =~= accepted_zones(self.zones@.take(i as int)));
        }
        assert(self.zones@.take(n as int) =~= self.zones@);
        let mut led_count: usize = 0;
        let mut k: usize = 0;
        while k < n
            invariant
                n == zones@.len(),
                k <= n,
                capacity_sum(zones@) <= usize::MAX,
                led_count == capacity_sum(zones@.take(k as int)),
            decreases n - k,
        {
            proof {
                lemma_capacity_sum_step(zones@, k as int);
                lemma_capacity_sum_prefix(zones@, k + 1);
            }
            led_count = led_count + zones[k].capacity;
            k = k + 1;
        }
        assert(zones@.take(n as int) =~= zones@);
        if led_count == 0 {
            return Err(ConfigError::NoLeds);
        }
        let max_leds = match self.capabilities.max_leds {
            Some(max_leds) => max_leds,
            None => led_count,
        };
        if max_leds < led_count {
            return Err(ConfigError::MaxLedsTooSmall { max_leds, led_count });
        }
        let capabilities = DeviceCapabilities {
            direct_rgb: self.capabilities.direct_rgb,
            per_led: self.capabilities.per_led,
            max_leds,
            min_update_interval_us: match self.capabilities.min_update_interval_us {
                Some(us) => us,
                None => DEFAULT_MIN_UPDATE_INTERVAL_US,
            },
            supports_readback: self.capabilities.supports_readback,
        };
        Ok(
            BoardProfile {
                brand,
                model: self.model,
                revision: self.revision,
                usb_match: UsbMatch {
                    vendor_id: self.usb_match.vendor_id,
                    product_id: self.usb_match.product_id,
                    interface: self.usb_match.interface,
                },
                protocol,
                zones,
                capabilities,
            },
        )
    }
}

/// `vendor` names the brand: for Colorful, its letters and digits contain "colorful".
pub open spec fn brand_matches(brand: BrandId, vendor: Seq<char>) -> bool {
    match brand {
        BrandId::Colorful => contains(normalize(vendor), seq!['c', 'o', 'l', 'o', 'r', 'f', 'u', 'l']),
    }
}

/// The profile describes the board that the firmware reports: same model and
/// brand, and, where the profile names a revision, the same revision (names are
/// compared by their letters and digits, ignoring case).
pub open spec fn matches_identity(profile: BoardProfile, identity: BoardIdentity) -> bool {
    &&& normalize(profile.model@) == normalize(identity.model@)
    &&& brand_matches(profile.brand, identity.vendor@)
    &&& match profile.revision {
        None => true,
        Some(revision) => match identity.revision {
            Some(actual) => normalize(revision@) == normalize(actual@),
            None => false,
        },
    }
}

/// When a profile describes a board: exactly when its model and the board's
/// model have the same letters and digits (ignoring case), the board's vendor
/// contains "colorful" among its letters and digits, and, if the profile names a
/// revision, the board reports a revision with the same letters and digits.
pub proof fn lemma_identity_match(profile: BoardProfile, identity: BoardIdentity)
    ensures
        matches_identity(profile, identity) ==> normalize(profile.model@) == normalize(
            identity.model@,
        ),
        matches_identity(profile, identity) ==> contains(
            normalize(identity.vendor@),
            seq!['c', 'o', 'l', 'o', 'r', 'f', 'u', 'l'],
        ),
        matches_identity(profile, identity) && profile.revision is Some ==> (identity.revision is Some
            && normalize(profile.revision->Some_0@) == normalize(identity.revision->Some_0@)),
        (normalize(profile.model@) == normalize(identity.model@) && contains(
            normalize(identity.vendor@),
            seq!['c', 'o', 'l', 'o', 'r', 'f', 'u', 'l'],
        ) && (profile.revision is None || (identity.revision is Some && normalize(
            profile.revision->Some_0@,
        ) == normalize(identity.revision->Some_0@)))) ==> matches_identity(profile, identity),
{
}

/// Two profiles whose models, or whose named revisions, differ in a letter or
/// digit never both describe the same board, so a board is never given the
/// profile of another model or revision.
pub proof fn lemma_different_profiles_never_match_alike(a: BoardProfile, b: BoardProfile, identity: BoardIdentity)
    requires
        normalize(a.model@) != normalize(b.model@) || (a.revision is Some && b.revision is Some
            && normalize(a.revision->Some_0@) != normalize(b.revision->Some_0@)),
    ensures
        !(matches_identity(a, identity) && matches_identity(b, identity)),
{
    lemma_identity_match(a, identity);
    lemma_identity_match(b, identity);
}

fn brand_matches_vendor(brand: BrandId, vendor: &str) -> (matches: bool)
    ensures
        matches == brand_matches(brand, vendor@),
{
    let normalized = normalize_str(vendor);
    match brand {
        BrandId::Colorful => {
            let colorful = vec!['c', 'o', 'l', 'o', 'r', 'f', 'u', 'l'];
            assert(colorful@ =~= seq!['c', 'o', 'l', 'o', 'r', 'f', 'u', 'l']);
            contains_chars(&normalized, &colorful)
        },
    }
}

fn profile_matches_identity(profile: &BoardProfile, identity: &BoardIdentity) -> (matches: bool)
    ensures
        matches == matches_identity(*profile, *identity),
{
    let model = normalize_str(profile.model.as_str());
    let actual_model = normalize_str(identity.model.as_str());
    if !chars_equal(&model, &actual_model) {
        return false;
    }
    if !brand_matches_vendor(profile.brand, identity.vendor.as_str()) {
        return false;
    }
    match &profile.revision {
        None => true,
        Some(revision) => match &identity.revision {
            Some(actual) => {
                let revision = normalize_str(revision.as_str());
                let actual = normalize_str(actual.as_str());
                chars_equal(&revision, &actual)
            },
            None => false,
        },
    }
}

/// A profile file as the catalog is given it: its path, the path's file stem,
/// and what the file holds.
pub struct ProfileSource {
    pub path: String,
    pub stem: Option<String>,
    pub raw: RawBoardProfile,
}

/// An accepted profile and the file it came from.
pub struct LoadedProfile {
    pub source: String,
    pub stem: Option<String>,
    pub profile: BoardProfile,
}

/// The accepted profiles of a profile directory, in path order.
pub struct ProfileCatalog {
    profiles: Vec<LoadedProfile>,
}

/// The profile reserves at least one LED slot and no more than its `max_leds`,
/// and none of its zones drives more LEDs than it has slots.
pub open spec fn profile_is_sound(profile: BoardProfile) -> bool {
    &&& 0 < capacity_sum(profile.zones@) <= profile.capabilities.max_leds
    &&& zones_fit(profile.zones@, profile.zones@.len() as int)
}

/// A sound profile always has a topology, unless none of its zones drives an
/// LED: building it never fails for want of slots or for an overfull zone.
pub proof fn lemma_sound_profile_has_topology(profile: BoardProfile, topology: Result<Topology, TopologyError>)
    requires
        profile_is_sound(profile),
        profile.zones@.len() <= usize::MAX,
        spec_from_profiles(profile.zones@, topology),
    ensures
        topology is Ok <==> active_sum(profile.zones@) > 0,
        topology is Err ==> topology == Err::<Topology, TopologyError>(TopologyError::NoLeds),
{
    lemma_led_count_is_active_sum(profile.zones@);
}

impl View for ProfileCatalog {
    type V = Seq<LoadedProfile>;

    closed spec fn view(&self) -> Seq<LoadedProfile> {
        self.profiles@
    }
}

/// Profile file `i` is the first that is refused.
pub open spec fn first_rejected_profile(sources: Seq<ProfileSource>, i: int) -> bool {
    &&& 0 <= i < sources.len()
    &&& !board_accepted(sources[i].raw)
    &&& forall|j: int| 0 <= j < i ==> board_accepted(#[trigger] sources[j].raw)
}

/// Every profile file is accepted.
pub open spec fn all_profiles_accepted(sources: Seq<ProfileSource>) -> bool {
    forall|i: int| 0 <= i < sources.len() ==> board_accepted(#[trigger] sources[i].raw)
}

/// The sums that `into_profile` computes fit in a `usize`.
pub open spec fn sources_fit(sources: Seq<ProfileSource>) -> bool {
    forall|i: int|
        0 <= i < sources.len() ==> (all_zones_accepted(#[trigger] sources[i].raw.zones@)
            ==> capacity_sum(accepted_zones(sources[i].raw.zones@)) <= usize::MAX)
}

/// Profile `i` of the catalog is for `brand` and its model or file stem is
/// `requested` (both compared lowercased).
pub open spec fn named_profile(catalog: Seq<LoadedProfile>, brand: BrandId, requested: Seq<char>, i: int) -> bool {
    &&& 0 <= i < catalog.len()
    &&& catalog[i].profile.brand == brand
    &&& {
        ||| lower(catalog[i].profile.model@) == lower(requested)
        ||| (catalog[i].stem matches Some(stem) && lower(stem@) == lower(requested))
    }
}

/// Profile `i` is the first named profile.
pub open spec fn first_named_profile(catalog: Seq<LoadedProfile>, brand: BrandId, requested: Seq<char>, i: int) -> bool {
    &&& named_profile(catalog, brand, requested, i)
    &&& forall|j: int| 0 <= j < i ==> !#[trigger] named_profile(catalog, brand, requested, j)
}

/// Profile `i` of the catalog is for `brand` and matches the board's identity.
pub open spec fn identified_profile(catalog: Seq<LoadedProfile>, brand: BrandId, identity: BoardIdentity, i: int) -> bool {
    &&& 0 <= i < catalog.len()
    &&& catalog[i].profile.brand == brand
    &&& matches_identity(catalog[i].profile, identity)
}

/// Profile `i` is the only one that matches the board's identity.
pub open spec fn only_identified_profile(catalog: Seq<LoadedProfile>, brand: BrandId, identity: BoardIdentity, i: int) -> bool {
    &&& identified_profile(catalog, brand, identity, i)
    &&& forall|j: int| #[trigger] identified_profile(catalog, brand, identity, j) ==> j == i
}

/// Some profile of the catalog is for `brand`.
pub open spec fn has_brand(catalog: Seq<LoadedProfile>, brand: BrandId) -> bool {
    exists|i: int| 0 <= i < catalog.len() && (#[trigger] catalog[i]).profile.brand == brand
}

/// What a choice by name gives: the first profile of the brand so named, or,
/// when none is, an error that names the lowercased request.
pub open spec fn named_outcome(
    catalog: Seq<LoadedProfile>,
    brand: BrandId,
    requested: Seq<char>,
    result: Result<BoardProfile, ConfigError>,
) -> bool {
    &&& forall|i: int|
        #[trigger] first_named_profile(catalog, brand, requested, i) ==> (result matches Ok(p)
            && p.same_as(catalog[i].profile))
    &&& (forall|i: int| !#[trigger] named_profile(catalog, brand, requested, i)) ==> (
    result matches Err(ConfigError::ProfileNotFound { requested: name }) && name@ == lower(
        requested,
    ))
}

/// What a choice by identity gives: the only profile of the brand that matches
/// the identity, or, when there is none or more than one, an error.
pub open spec fn identified_outcome(
    catalog: Seq<LoadedProfile>,
    brand: BrandId,
    identity: BoardIdentity,
    result: Result<BoardProfile, ConfigError>,
) -> bool {
    &&& forall|i: int|
        #[trigger] only_identified_profile(catalog, brand, identity, i) ==> (result matches Ok(p)
            && p.same_as(catalog[i].profile))
    &&& (forall|i: int| !#[trigger] only_identified_profile(catalog, brand, identity, i)) ==> (
    result matches Err(ConfigError::NoUniqueMatch { brand: b, vendor, model }) && b == brand
        && vendor == identity.vendor && model == identity.model)
}

/// What `ProfileCatalog::select` gives: with a requested name, the first profile
/// of the brand so named; without one, the only profile of the brand that
/// matches the board's identity.
pub open spec fn select_outcome(
    catalog: Seq<LoadedProfile>,
    requested: Option<Seq<char>>,
    brand: BrandId,
    identity: Option<BoardIdentity>,
    result: Result<BoardProfile, ConfigError>,
) -> bool {
    if !has_brand(catalog, brand) {
        result == Err::<BoardProfile, ConfigError>(ConfigError::NoProfileForBrand { brand })
    } else {
        match requested {
            Some(requested) => named_outcome(catalog, brand, requested, result),
            None => match identity {
                None => result == Err::<BoardProfile, ConfigError>(ConfigError::IdentityRequired),
                Some(identity) => identified_outcome(catalog, brand, identity, result),
            },
        }
    }
}

impl ProfileCatalog {
    #[verifier::type_invariant]
    spec fn well_formed(self) -> bool {
        forall|i: int| 0 <= i < self.profiles@.len() ==> profile_is_sound(#[trigger] self.profiles@[i].profile)
    }

    /// Accepts every profile file, in the order given; the first refused file
    /// names the error, and a catalog needs at least one file.
    pub fn from_sources(sources: Vec<ProfileSource>) -> (catalog: Result<ProfileCatalog, ConfigError>)
        requires
            sources_fit(sources@),
        ensures
            match catalog {
                Ok(c) => {
                    &&& sources@.len() > 0
                    &&& all_profiles_accepted(sources@)
                    &&& c@.len() == sources@.len()
                    &&& forall|i: int|
                        0 <= i < sources@.len() ==> {
                            &&& (#[trigger] c@[i]).source == sources@[i].path
                            &&& c@[i].stem == sources@[i].stem
                            &&& board_outcome(
                                sources@[i].raw,
                                Ok::<BoardProfile, ConfigError>(c@[i].profile),
                            )
                        }
                },
                Err(e) => if sources@.len() == 0 {
                    e == ConfigError::NoProfiles
                } else {
                    exists|i: int|
                        #[trigger] first_rejected_profile(sources@, i) && board_outcome(
                            sources@[i].raw,
                            Err::<BoardProfile, ConfigError>(e),
                        )
                },
            },
    {
        if sources.len() == 0 {
            return Err(ConfigError::NoProfiles);
        }
        let ghost original = sources@;
        let n = sources.len();
        let mut rest = sources;
        let mut profiles: Vec<LoadedProfile> = Vec::with_capacity(n);
        let mut i: usize = 0;
        while i < n
            invariant
                n == original.len(),
                original == sources@,
                n > 0,
                sources_fit(original),
                i <= n,
                rest@ == original.subrange(i as int, n as int),
                profiles@.len() == i,
                forall|j: int| 0 <= j < i ==> profile_is_sound(#[trigger] profiles@[j].profile),
                forall|j: int| 0 <= j < i ==> board_accepted(#[trigger] original[j].raw),
                forall|j: int|
                    0 <= j < i ==> {
                        &&& (#[trigger] profiles@[j]).source == original[j].path
                        &&& profiles@[j].stem == original[j].stem
                        &&& board_outcome(
                            original[j].raw,
                            Ok::<BoardProfile, ConfigError>(profiles@[j].profile),
                        )
                    },
            decreases n - i,
        {
            let source = rest.remove(0);
            assert(source == original[i as int]);
            assert(sources_fit(original));
            assert(all_zones_accepted(original[i as int].raw.zones@) ==> capacity_sum(
                accepted_zones(original[i as int].raw.zones@),
            ) <= usize::MAX);
            match source.raw.into_profile() {
                Ok(profile) => {
                    profiles.push(LoadedProfile { source: source.path, stem: source.stem, profile });
                },
                Err(e) => {
                    assert(first_rejected_profile(original, i as int));
                    return Err(e);
                },
            }
            i = i + 1;
            assert(rest@ =~= original.subrange(i as int, n as int));
        }
        Ok(ProfileCatalog { profiles })
    }

    /// Picks the profile to drive: with `requested`, the first profile of the
    /// brand whose model or file stem is `requested` (ignoring ASCII case);
    /// without, the only profile of the brand that matches the board's identity.
    pub fn select(&self, requested: Option<&str>, brand: BrandId, identity: Option<&BoardIdentity>) -> (profile: Result<BoardProfile, ConfigError>)
        ensures
            select_outcome(
                self@,
                match requested {
                    Some(r) => Some(r@),
                    None => None,
                },
                brand,
                match identity {
                    Some(id) => Some(*id),
                    None => None,
                },
                profile,
            ),
            profile matches Ok(p) ==> profile_is_sound(p),
    {
        proof {
            use_type_invariant(self);
        }
        let n = self.profiles.len();
        let mut i: usize = 0;
        let mut found = false;
        while i < n && !found
            invariant
                n == self@.len(),
                i <= n,
                found ==> has_brand(self@, brand),
                !found ==> forall|j: int| 0 <= j < i ==> (#[trigger] self@[j]).profile.brand != brand,
            decreases n - i + if found { 0int } else { 1int },
        {
            if self.profiles[i].profile.brand == brand {
                assert(self@[i as int].profile.brand == brand);
                found = true;
            } else {
                i = i + 1;
            }
        }
        if !found {
            return Err(ConfigError::NoProfileForBrand { brand });
        }
        match requested {
            Some(requested) => self.select_named(requested, brand),
            None => match identity {
                Some(identity) => self.select_identified(identity, brand),
                None => Err(ConfigError::IdentityRequired),
            },
        }
    }

    fn select_named(&self, requested: &str, brand: BrandId) -> (profile: Result<BoardProfile, ConfigError>)
        requires
            forall|i: int| 0 <= i < self@.len() ==> profile_is_sound(#[trigger] self@[i].profile),
        ensures
            named_outcome(self@, brand, requested@, profile),
            profile matches Ok(p) ==> profile_is_sound(p),
    {
        let n = self.profiles.len();
        let wanted = lower_chars(&chars_of(requested));
        let mut i: usize = 0;
        while i < n
            invariant
                n == self@.len(),
                i <= n,
                wanted@ == lower(requested@),
                forall|j: int| 0 <= j < self@.len() ==> profile_is_sound(#[trigger] self@[j].profile),
                forall|j: int| 0 <= j < i ==> !#[trigger] named_profile(self@, brand, requested@, j),
            decreases n - i,
        {
            let loaded = &self.profiles[i];
            if loaded.profile.brand == brand {
                let model = lower_chars(&chars_of(loaded.profile.model.as_str()));
                let mut named = chars_equal(&model, &wanted);
                if !named {
                    match &loaded.stem {
                        Some(stem) => {
                            let stem = lower_chars(&chars_of(stem.as_str()));
                            named = chars_equal(&stem, &wanted);
                        },
                        None => {},
                    }
                }
                if named {
                    let chosen = loaded.profile.clone();
                    assert(profile_is_sound(self@[i as int].profile));
                    proof {
                        assert(named_profile(self@, brand, requested@, i as int));
                        assert forall|k: int| #[trigger]
                            first_named_profile(self@, brand, requested@, k) implies chosen.same_as(
                            self@[k].profile,
                        ) by {
                            if k < i {
                                assert(!named_profile(self@, brand, requested@, k));
                            }
                            if k > i {
                                assert(!named_profile(self@, brand, requested@, i as int));
                            }
                        }
                    }
                    return Ok(chosen);
                }
            }
            i = i + 1;
        }
        Err(ConfigError::ProfileNotFound { requested: string_from_chars(&wanted) })
    }

    fn select_identified(&self, identity: &BoardIdentity, brand: BrandId) -> (profile: Result<BoardProfile, ConfigError>)
        requires
            forall|i: int| 0 <= i < self@.len() ==> profile_is_sound(#[trigger] self@[i].profile),
        ensures
            identified_outcome(self@, brand, *identity, profile),
            profile matches Ok(p) ==> profile_is_sound(p),
    {
        let n = self.profiles.len();
        let mut count: usize = 0;
        let mut first: usize = 0;
        let mut i: usize = 0;
        while i < n
            invariant
                n == self@.len(),
                i <= n,
                count <= i,
                count == 0 ==> forall|j: int| 0 <= j < i ==> !#[trigger] identified_profile(self@, brand, *identity, j),
                count >= 1 ==> first < i && identified_profile(self@, brand, *identity, first as int),
                count == 1 ==> forall|j: int| 0 <= j < i && #[trigger] identified_profile(self@, brand, *identity, j) ==> j == first,
                count >= 2 ==> exists|j: int| 0 <= j < i && j != first && #[trigger] identified_profile(self@, brand, *identity, j),
            decreases n - i,
        {
            let loaded = &self.profiles[i];
            if loaded.profile.brand == brand && profile_matches_identity(&loaded.profile, identity) {
                assert(identified_profile(self@, brand, *identity, i as int));
                if count == 0 {
                    first = i;
                }
                if count < 2 {
                    count = count + 1;
                }
            }
            i = i + 1;
        }
        if count == 1 {
            let chosen = self.profiles[first].profile.clone();
            assert(profile_is_sound(self@[first as int].profile));
            proof {
                assert(only_identified_profile(self@, brand, *identity, first as int));
                assert forall|k: int| #[trigger] only_identified_profile(self@, brand, *identity, k) implies chosen.same_as(self@[k].profile) by {
                    assert(identified_profile(self@, brand, *identity, k));
                }
            }
            Ok(chosen)
        } else {
            proof {
                if count == 0 {
                    assert forall|k: int| !#[trigger] only_identified_profile(self@, brand, *identity, k) by {
                        if 0 <= k < n {
                            assert(!identified_profile(self@, brand, *identity, k));
                        }
                    }
                } else {
                    let j = choose|j: int| 0 <= j < n && j != first && #[trigger] identified_profile(self@, brand, *identity, j);
                    assert forall|k: int| !#[trigger] only_identified_profile(self@, brand, *identity, k) by {
                        if only_identified_profile(self@, brand, *identity, k) {
                            assert(identified_profile(self@, brand, *identity, j));
                            assert(identified_profile(self@, brand, *identity, first as int));
                        }
                    }
                }
            }
            Err(ConfigError::NoUniqueMatch { brand, vendor: identity.vendor.clone(), model: identity.model.clone() })
        }
    }
}

} // verus!
