use vstd::prelude::*;

use super::lamp::{LedInfo, Position};
use super::zone::{Zone, ZoneProfile};

verus! {

/// Why a topology could not be built.
#[derive(Debug, Clone, PartialEq, Eq)]
pub enum TopologyError {
    /// The zones reserve no LED slot at all.
    NoCapacity,
    /// The topology would hold no LED.
    NoLeds,
    /// A zone drives more LEDs than it has slots.
    ActiveExceedsCapacity { zone: String },
}

/// Sum of the zones' slot counts.
pub open spec fn capacity_sum(profiles: Seq<ZoneProfile>) -> nat
    decreases profiles.len(),
{
    if profiles.len() == 0 {
        0
    } else {
        capacity_sum(profiles.drop_last()) + profiles.last().capacity as nat
    }
}

/// Sum of the zones' driven LED counts.
pub open spec fn active_sum(profiles: Seq<ZoneProfile>) -> nat
    decreases profiles.len(),
{
    if profiles.len() == 0 {
        0
    } else {
        active_sum(profiles.drop_last()) + profiles.last().active_led_count as nat
    }
}

/// Zones `0..n` drive no more LEDs than they have slots.
pub open spec fn zones_fit(profiles: Seq<ZoneProfile>, n: int) -> bool {
    forall|i: int| 0 <= i < n ==> (#[trigger] profiles[i]).active_led_count <= profiles[i].capacity
}

/// The first slot of zone `i`: the slots of the zones before it come first.
pub open spec fn zone_offset(profiles: Seq<ZoneProfile>, i: int) -> nat {
    capacity_sum(profiles.take(i))
}

/// The denominator of the LED positions: the index of the last slot, at least 1.
pub open spec fn position_denominator(profiles: Seq<ZoneProfile>) -> usize {
    if capacity_sum(profiles) <= 2 {
        1
    } else {
        (capacity_sum(profiles) - 1) as usize
    }
}

/// Zone `i` placed at its offset.
pub open spec fn spec_zone(profiles: Seq<ZoneProfile>, i: int) -> Zone {
    Zone {
        id: i as usize,
        name: profiles[i].name,
        kind: profiles[i].kind,
        offset: zone_offset(profiles, i) as usize,
        capacity: profiles[i].capacity,
        active_led_count: profiles[i].active_led_count,
    }
}

/// The driven LEDs of zone `z`: slots `offset .. offset + active`, in order.
pub open spec fn zone_leds(profiles: Seq<ZoneProfile>, z: int, den: usize) -> Seq<(LedInfo, Position)> {
    let offset = zone_offset(profiles, z);
    Seq::new(
        profiles[z].active_led_count as nat,
        |j: int|
            (
                LedInfo { id: (offset + j) as usize, zone_id: z as usize },
                Position { x_numerator: (offset + j) as usize, x_denominator: den },
            ),
    )
}

/// The driven LEDs of zones `0..n`, zone after zone.
pub open spec fn leds_upto(profiles: Seq<ZoneProfile>, n: int, den: usize) -> Seq<(LedInfo, Position)>
    decreases n,
{
    if n <= 0 {
        Seq::empty()
    } else {
        leds_upto(profiles, n - 1, den) + zone_leds(profiles, n - 1, den)
    }
}

/// The LEDs of the topology built from these zones.
pub open spec fn spec_leds(profiles: Seq<ZoneProfile>) -> Seq<(LedInfo, Position)> {
    leds_upto(profiles, profiles.len() as int, position_denominator(profiles))
}

/// The zones of the topology built from these zones.
pub open spec fn spec_zones(profiles: Seq<ZoneProfile>) -> Seq<Zone> {
    Seq::new(profiles.len(), |i: int| spec_zone(profiles, i))
}

/// What `Topology::from_profiles` returns for these zones: the zones must reserve
/// at least one slot, no zone may drive more LEDs than it has slots (the first
/// such zone is named), and at least one LED must be driven.
pub open spec fn spec_from_profiles(profiles: Seq<ZoneProfile>, result: Result<Topology, TopologyError>) -> bool {
    match result {
        Ok(t) => {
            &&& capacity_sum(profiles) > 0
            &&& zones_fit(profiles, profiles.len() as int)
            &&& spec_leds(profiles).len() > 0
            &&& t@.0 == spec_leds(profiles)
            &&& t@.1 == spec_zones(profiles)
        },
        Err(TopologyError::NoCapacity) => capacity_sum(profiles) == 0,
        Err(TopologyError::ActiveExceedsCapacity { zone }) => {
            &&& capacity_sum(profiles) > 0
            &&& exists|i: int|
                0 <= i < profiles.len() && (#[trigger] profiles[i]).active_led_count
                    > profiles[i].capacity && zones_fit(profiles, i) && zone == profiles[i].name
        },
        Err(TopologyError::NoLeds) => {
            &&& capacity_sum(profiles) > 0
            &&& zones_fit(profiles, profiles.len() as int)
            &&& spec_leds(profiles).len() == 0
        },
    }
}

/// Adding one zone adds its slots to the running sum.
pub proof fn lemma_capacity_sum_step(profiles: Seq<ZoneProfile>, i: int)
    requires
        0 <= i < profiles.len(),
    ensures
        capacity_sum(profiles.take(i + 1)) == capacity_sum(profiles.take(i)) + profiles[i].capacity,
{
    assert(profiles.take(i + 1).drop_last() =~= profiles.take(i));
}

/// A prefix of the zones reserves no more slots than all of them.
pub proof fn lemma_capacity_sum_prefix(profiles: Seq<ZoneProfile>, i: int)
    requires
        0 <= i <= profiles.len(),
    ensures
        capacity_sum(profiles.take(i)) <= capacity_sum(profiles),
    decreases profiles.len(),
{
    if i == profiles.len() {
        assert(profiles.take(i) =~= profiles);
    } else {
        let shorter = profiles.drop_last();
        assert(profiles.take(i) =~= shorter.take(i));
        lemma_capacity_sum_prefix(shorter, i);
    }
}

/// Zone offsets never decrease.
pub proof fn lemma_zone_offset_monotone(profiles: Seq<ZoneProfile>, i: int, j: int)
    requires
        0 <= i <= j <= profiles.len(),
    ensures
        zone_offset(profiles, i) <= zone_offset(profiles, j),
    decreases j - i,
{
    if i < j {
        lemma_capacity_sum_step(profiles, j - 1);
        lemma_zone_offset_monotone(profiles, i, j - 1);
    }
}

/// Where the LEDs of zones `0..n` lie: each LED sits in a driven slot of its own
/// zone, its position is its slot over `den`, and slots strictly increase.
pub proof fn lemma_leds_upto_layout(profiles: Seq<ZoneProfile>, n: int, den: usize)
    requires
        0 <= n <= profiles.len(),
        zones_fit(profiles, n),
        capacity_sum(profiles) <= usize::MAX,
        profiles.len() <= usize::MAX,
    ensures
        leds_upto(profiles, n, den).len() == active_sum(profiles.take(n)),
        forall|k: int|
            0 <= k < leds_upto(profiles, n, den).len() ==> {
                let (info, position) = #[trigger] leds_upto(profiles, n, den)[k];
                &&& 0 <= info.zone_id < n
                &&& zone_offset(profiles, info.zone_id as int) <= info.id
                &&& info.id < zone_offset(profiles, info.zone_id as int)
                    + profiles[info.zone_id as int].active_led_count
                &&& info.id < zone_offset(profiles, n)
                &&& position == (Position { x_numerator: info.id, x_denominator: den })
            },
        forall|a: int, b: int|
            0 <= a < b < leds_upto(profiles, n, den).len() ==> (#[trigger] leds_upto(
                profiles,
                n,
                den,
            )[a]).0.id < (#[trigger] leds_upto(profiles, n, den)[b]).0.id,
    decreases n,
{
    if n > 0 {
        lemma_leds_upto_layout(profiles, n - 1, den);
        lemma_capacity_sum_step(profiles, n - 1);
        lemma_capacity_sum_prefix(profiles, n);
        assert(profiles.take(n).drop_last() =~= profiles.take(n - 1));
        let before = leds_upto(profiles, n - 1, den);
        let added = zone_leds(profiles, n - 1, den);
        let all = leds_upto(profiles, n, den);
        assert(all =~= before + added);
        assert forall|k: int| 0 <= k < all.len() implies {
            let (info, position) = #[trigger] all[k];
            &&& 0 <= info.zone_id < n
            &&& zone_offset(profiles, info.zone_id as int) <= info.id
            &&& info.id < zone_offset(profiles, info.zone_id as int)
                + profiles[info.zone_id as int].active_led_count
            &&& info.id < zone_offset(profiles, n)
            &&& position == (Position { x_numerator: info.id, x_denominator: den })
        } by {
            if k < before.len() {
                assert(all[k] == before[k]);
            } else {
                let j = k - before.len();
                assert(all[k] == added[j]);
                assert(profiles[n - 1].active_led_count <= profiles[n - 1].capacity);
                assert(zone_offset(profiles, n - 1) + j < zone_offset(profiles, n));
            }
        }
        assert forall|a: int, b: int| 0 <= a < b < all.len() implies (#[trigger] all[a]).0.id < (
        #[trigger] all[b]).0.id by {
            if b < before.len() {
                assert(all[a] == before[a]);
                assert(all[b] == before[b]);
            } else if a < before.len() {
                assert(all[a] == before[a]);
                assert(all[b] == added[b - before.len()]);
                assert(before[a].0.id < zone_offset(profiles, n - 1));
            } else {
                assert(all[a] == added[a - before.len()]);
                assert(all[b] == added[b - before.len()]);
            }
        }
    }
}

/// The number of LEDs of a topology is the sum of the zones' driven LED counts.
pub proof fn lemma_led_count_is_active_sum(profiles: Seq<ZoneProfile>)
    requires
        zones_fit(profiles, profiles.len() as int),
        capacity_sum(profiles) <= usize::MAX,
        profiles.len() <= usize::MAX,
    ensures
        spec_leds(profiles).len() == active_sum(profiles),
{
    lemma_leds_upto_layout(profiles, profiles.len() as int, position_denominator(profiles));
    assert(profiles.take(profiles.len() as int) =~= profiles);
}

/// Every LED of a topology sits in a driven slot of the zone it names, no two
/// LEDs share a slot (slots strictly increase), and an LED's position is its
/// slot over the index of the last slot, so it lies between 0 and 1.
pub proof fn lemma_leds_lie_in_their_zones(profiles: Seq<ZoneProfile>)
    requires
        zones_fit(profiles, profiles.len() as int),
        capacity_sum(profiles) <= usize::MAX,
        profiles.len() <= usize::MAX,
    ensures
        forall|k: int|
            0 <= k < spec_leds(profiles).len() ==> {
                let (info, position) = #[trigger] spec_leds(profiles)[k];
                let zone = spec_zones(profiles)[info.zone_id as int];
                &&& 0 <= info.zone_id < spec_zones(profiles).len()
                &&& zone.offset <= info.id < zone.offset + zone.active_led_count
                &&& position.x_numerator == info.id
                &&& position.x_denominator == position_denominator(profiles)
                &&& 0 < position.x_denominator
                &&& position.x_numerator <= position.x_denominator
            },
        forall|a: int, b: int|
            0 <= a < b < spec_leds(profiles).len() ==> (#[trigger] spec_leds(profiles)[a]).0.id < (
            #[trigger] spec_leds(profiles)[b]).0.id,
{
    let n = profiles.len() as int;
    let den = position_denominator(profiles);
    lemma_leds_upto_layout(profiles, n, den);
    assert(profiles.take(n) =~= profiles);
    assert forall|k: int| 0 <= k < spec_leds(profiles).len() implies {
        let (info, position) = #[trigger] spec_leds(profiles)[k];
        let zone = spec_zones(profiles)[info.zone_id as int];
        &&& 0 <= info.zone_id < spec_zones(profiles).len()
        &&& zone.offset <= info.id < zone.offset + zone.active_led_count
        &&& position.x_numerator == info.id
        &&& position.x_denominator == position_denominator(profiles)
        &&& 0 < position.x_denominator
        &&& position.x_numerator <= position.x_denominator
    } by {
        let (info, position) = spec_leds(profiles)[k];
        lemma_zone_offset_monotone(profiles, info.zone_id as int, n);
    }
}

/// The zones of a topology are numbered in order and laid end to end: the
/// first starts at slot 0 and each starts where the one before it ends.
pub proof fn lemma_zones_are_contiguous(profiles: Seq<ZoneProfile>)
    requires
        capacity_sum(profiles) <= usize::MAX,
        profiles.len() <= usize::MAX,
    ensures
        forall|i: int| 0 <= i < profiles.len() ==> (#[trigger] spec_zones(profiles)[i]).id == i,
        profiles.len() > 0 ==> spec_zones(profiles)[0].offset == 0,
        forall|i: int|
            0 <= i < profiles.len() - 1 ==> (#[trigger] spec_zones(profiles)[i + 1]).offset
                == spec_zones(profiles)[i].offset + spec_zones(profiles)[i].capacity,
        profiles.len() > 0 ==> spec_zones(profiles)[profiles.len() - 1].offset
            + spec_zones(profiles)[profiles.len() - 1].capacity == capacity_sum(profiles),
{
    if profiles.len() > 0 {
        assert(profiles.take(0) =~= Seq::<ZoneProfile>::empty());
        lemma_capacity_sum_step(profiles, profiles.len() - 1);
        assert(profiles.take(profiles.len() as int) =~= profiles);
        lemma_capacity_sum_prefix(profiles, profiles.len() - 1);
    }
    assert forall|i: int| 0 <= i < profiles.len() - 1 implies (#[trigger] spec_zones(
        profiles,
    )[i + 1]).offset == spec_zones(profiles)[i].offset + spec_zones(profiles)[i].capacity by {
        lemma_capacity_sum_step(profiles, i);
        lemma_capacity_sum_prefix(profiles, i + 1);
        lemma_capacity_sum_prefix(profiles, i + 2);
    }
}

/// Adding one zone adds its driven LEDs to the running count.
pub proof fn lemma_active_sum_step(profiles: Seq<ZoneProfile>, i: int)
    requires
        0 <= i < profiles.len(),
    ensures
        active_sum(profiles.take(i + 1)) == active_sum(profiles.take(i)) + profiles[i].active_led_count,
{
    assert(profiles.take(i + 1).drop_last() =~= profiles.take(i));
}

/// The driven LEDs of the zones before `i` are no more than those before `j`.
pub proof fn lemma_active_sum_monotone(profiles: Seq<ZoneProfile>, i: int, j: int)
    requires
        0 <= i <= j <= profiles.len(),
    ensures
        active_sum(profiles.take(i)) <= active_sum(profiles.take(j)),
    decreases j - i,
{
    if i < j {
        lemma_active_sum_step(profiles, j - 1);
        lemma_active_sum_monotone(profiles, i, j - 1);
    }
}

/// In the LEDs of zones `0..n`, LED `k` belongs to the zone `z` whose driven
/// LEDs come after those of the zones before it: `k` lies in
/// `active_sum(take(z)) .. active_sum(take(z + 1))`.
proof fn lemma_leds_upto_zone_ranges(profiles: Seq<ZoneProfile>, n: int, den: usize)
    requires
        0 <= n <= profiles.len(),
        zones_fit(profiles, n),
        capacity_sum(profiles) <= usize::MAX,
        profiles.len() <= usize::MAX,
    ensures
        forall|k: int|
            0 <= k < leds_upto(profiles, n, den).len() ==> {
                let z = (#[trigger] leds_upto(profiles, n, den)[k]).0.zone_id as int;
                &&& 0 <= z < n
                &&& active_sum(profiles.take(z)) <= k
                &&& k < active_sum(profiles.take(z)) + profiles[z].active_led_count
            },
    decreases n,
{
    lemma_leds_upto_layout(profiles, n, den);
    if n > 0 {
        lemma_leds_upto_zone_ranges(profiles, n - 1, den);
        lemma_leds_upto_layout(profiles, n - 1, den);
        let before = leds_upto(profiles, n - 1, den);
        let added = zone_leds(profiles, n - 1, den);
        let all = leds_upto(profiles, n, den);
        assert(all =~= before + added);
        assert forall|k: int| 0 <= k < all.len() implies {
            let z = (#[trigger] all[k]).0.zone_id as int;
            &&& 0 <= z < n
            &&& active_sum(profiles.take(z)) <= k
            &&& k < active_sum(profiles.take(z)) + profiles[z].active_led_count
        } by {
            if k < before.len() {
                assert(all[k] == before[k]);
            } else {
                assert(all[k] == added[k - before.len()]);
            }
        }
    }
}

/// Each zone of a topology keeps the name, kind, slot count and driven LED
/// count of its profile, and exactly that many LEDs of the topology belong to
/// it: LED `k` belongs to zone `i` exactly when `k` lies in the run of
/// `zones[i].active_led_count` LEDs that follows the LEDs of the zones before it.
pub proof fn lemma_zones_keep_profile_counts(profiles: Seq<ZoneProfile>)
    requires
        zones_fit(profiles, profiles.len() as int),
        capacity_sum(profiles) <= usize::MAX,
        profiles.len() <= usize::MAX,
    ensures
        forall|i: int|
            0 <= i < profiles.len() ==> {
                &&& (#[trigger] spec_zones(profiles)[i]).name == profiles[i].name
                &&& spec_zones(profiles)[i].kind == profiles[i].kind
                &&& spec_zones(profiles)[i].capacity == profiles[i].capacity
                &&& spec_zones(profiles)[i].active_led_count == profiles[i].active_led_count
            },
        forall|i: int, k: int|
            0 <= i < profiles.len() && 0 <= k < spec_leds(profiles).len() ==> (
            (#[trigger] spec_leds(profiles)[k]).0.zone_id == i <==> (active_sum(profiles.take(i)) <= k
                < active_sum(profiles.take(i)) + (#[trigger] spec_zones(profiles)[i]).active_led_count)),
{
    let n = profiles.len() as int;
    let den = position_denominator(profiles);
    lemma_leds_upto_zone_ranges(profiles, n, den);
    assert forall|i: int, k: int|
        0 <= i < profiles.len() && 0 <= k < spec_leds(profiles).len() implies (
        (#[trigger] spec_leds(profiles)[k]).0.zone_id == i <==> (active_sum(profiles.take(i)) <= k
            < active_sum(profiles.take(i)) + (#[trigger] spec_zones(profiles)[i]).active_led_count)) by {
        let z = spec_leds(profiles)[k].0.zone_id as int;
        if z < i {
            lemma_active_sum_step(profiles, z);
            lemma_active_sum_monotone(profiles, z + 1, i);
        } else if z > i {
            lemma_active_sum_step(profiles, i);
            lemma_active_sum_monotone(profiles, i + 1, z);
        }
    }
}

/// The LEDs of a board and the zones that hold them.
#[derive(Debug, PartialEq)]
pub struct Topology {
    leds: Vec<(LedInfo, Position)>,
    zones: Vec<Zone>,
}

impl View for Topology {
    type V = (Seq<(LedInfo, Position)>, Seq<Zone>);

    closed spec fn view(&self) -> (Seq<(LedInfo, Position)>, Seq<Zone>) {
        (self.leds@, self.zones@)
    }
}

/// No zone drives more LEDs than it has slots.
pub open spec fn all_zones_fit(zones: Seq<Zone>) -> bool {
    forall|i: int| 0 <= i < zones.len() ==> (#[trigger] zones[i]).active_led_count <= zones[i].capacity
}

/// Zone `i` is the first zone that drives more LEDs than it has slots.
pub open spec fn first_overfull_zone(zones: Seq<Zone>, i: int) -> bool {
    &&& 0 <= i < zones.len()
    &&& zones[i].active_led_count > zones[i].capacity
    &&& forall|j: int| 0 <= j < i ==> (#[trigger] zones[j]).active_led_count <= zones[j].capacity
}

impl Topology {
    #[verifier::type_invariant]
    spec fn well_formed(self) -> bool {
        &&& self.leds@.len() > 0
        &&& all_zones_fit(self.zones@)
    }

    /// A topology of these LEDs and zones: at least one LED, and no zone that
    /// drives more LEDs than it has slots (the first such zone is named).
    pub fn new(leds: Vec<(LedInfo, Position)>, zones: Vec<Zone>) -> (topology: Result<
        Topology,
        TopologyError,
    >)
        ensures
            match topology {
                Ok(t) => leds@.len() > 0 && all_zones_fit(zones@) && t@ == (leds@, zones@),
                Err(TopologyError::NoLeds) => leds@.len() == 0,
                Err(TopologyError::ActiveExceedsCapacity { zone }) => leds@.len() > 0 && exists|
                    i: int,
                | #[trigger] first_overfull_zone(zones@, i) && zone == zones@[i].name,
                Err(TopologyError::NoCapacity) => false,
            },
    {
        if leds.len() == 0 {
            return Err(TopologyError::NoLeds);
        }
        let mut i: usize = 0;
        while i < zones.len()
            invariant
                i <= zones@.len(),
                leds@.len() > 0,
                forall|j: int| 0 <= j < i ==> (#[trigger] zones@[j]).active_led_count <= zones@[j].capacity,
            decreases zones@.len() - i,
        {
            if zones[i].active_led_count > zones[i].capacity {
                assert(first_overfull_zone(zones@, i as int));
                return Err(TopologyError::ActiveExceedsCapacity { zone: zones[i].name.clone() });
            }
            i = i + 1;
        }
        Ok(Topology { leds, zones })
    }

    /// Places the zones one after another in the LED slot space and lists the
    /// driven LEDs of each zone, in slot order.
    pub(crate) fn from_profiles(profiles: &[ZoneProfile]) -> (topology: Result<Topology, TopologyError>)
        requires
            capacity_sum(profiles@) <= usize::MAX,
        ensures
            spec_from_profiles(profiles@, topology),
    {
        let n = profiles.len();
        let mut total: usize = 0;
        let mut i: usize = 0;
        while i < n
            invariant
                n == profiles@.len(),
                capacity_sum(profiles@) <= usize::MAX,
                i <= n,
                total == capacity_sum(profiles@.take(i as int)),
            decreases n - i,
        {
            proof {
                lemma_capacity_sum_step(profiles@, i as int);
                lemma_capacity_sum_prefix(profiles@, i + 1);
            }
            total = total + profiles[i].capacity;
            i = i + 1;
        }
        assert(profiles@.take(n as int) =~= profiles@);
        if total == 0 {
            return Err(TopologyError::NoCapacity);
        }
        let last_led: usize = if total <= 2 {
            1
        } else {
            total - 1
        };
        let ghost den = position_denominator(profiles@);
        assert(last_led == den);
        let mut offset: usize = 0;
        let mut leds: Vec<(LedInfo, Position)> = Vec::new();
        let mut zones: Vec<Zone> = Vec::with_capacity(n);
        let mut zone_id: usize = 0;
        while zone_id < n
            invariant
                n == profiles@.len(),
                capacity_sum(profiles@) <= usize::MAX,
                total == capacity_sum(profiles@),
                total > 0,
                last_led == den,
                den == position_denominator(profiles@),
                zone_id <= n,
                offset == zone_offset(profiles@, zone_id as int),
                zones_fit(profiles@, zone_id as int),
                zones@ == spec_zones(profiles@).take(zone_id as int),
                leds@ == leds_upto(profiles@, zone_id as int, den),
            decreases n - zone_id,
        {
            let profile = &profiles[zone_id];
            if profile.active_led_count > profile.capacity {
                assert(capacity_sum(profiles@) > 0);
                return Err(TopologyError::ActiveExceedsCapacity { zone: profile.name.clone() });
            }
            proof {
                lemma_capacity_sum_step(profiles@, zone_id as int);
                lemma_capacity_sum_prefix(profiles@, zone_id + 1);
            }
            zones.push(
                Zone {
                    id: zone_id,
                    name: profile.name.clone(),
                    kind: profile.kind,
                    offset,
                    capacity: profile.capacity,
                    active_led_count: profile.active_led_count,
                },
            );
            let ghost before = leds@;
            let mut local_id: usize = 0;
            while local_id < profile.active_led_count
                invariant
                    n == profiles@.len(),
                    zone_id < n,
                    profile == profiles@[zone_id as int],
                    profile.active_led_count <= profile.capacity,
                    offset + profile.capacity <= usize::MAX,
                    offset == zone_offset(profiles@, zone_id as int),
                    last_led == den,
                    local_id <= profile.active_led_count,
                    leds@ == before + zone_leds(profiles@, zone_id as int, den).take(local_id as int),
                decreases profile.active_led_count - local_id,
            {
                let id = offset + local_id;
                leds.push(
                    (
                        LedInfo { id, zone_id },
                        Position { x_numerator: id, x_denominator: last_led },
                    ),
                );
                proof {
                    assert(zone_leds(profiles@, zone_id as int, den).take(local_id + 1) =~= zone_leds(
                        profiles@,
                        zone_id as int,
                        den,
                    ).take(local_id as int).push(leds@.last()));
                }
                local_id = local_id + 1;
            }
            assert(zone_leds(profiles@, zone_id as int, den).take(local_id as int) =~= zone_leds(
                profiles@,
                zone_id as int,
                den,
            ));
            assert(zones@ =~= spec_zones(profiles@).take(zone_id + 1));
            offset = offset + profile.capacity;
            zone_id = zone_id + 1;
        }
        assert(zones@ =~= spec_zones(profiles@));
        match Topology::new(leds, zones) {
            Ok(t) => Ok(t),
            Err(e) => {
                proof {
                    assert(all_zones_fit(spec_zones(profiles@)));
                }
                Err(e)
            },
        }
    }

    /// Number of LEDs; never zero.
    pub fn led_count(&self) -> (count: usize)
        ensures
            count == self@.0.len(),
            count > 0,
    {
        proof {
            use_type_invariant(self);
        }
        self.leds.len()
    }

    /// The LEDs, in slot order, each with its zone and position; never empty.
    pub fn leds(&self) -> (leds: &[(LedInfo, Position)])
        ensures
            leds@ == self@.0,
            leds@.len() > 0,
    {
        proof {
            use_type_invariant(self);
        }
        self.leds.as_slice()
    }

    /// The zones, in slot order.
    pub fn zones(&self) -> (zones: &[Zone])
        ensures
            zones@ == self@.1,
            all_zones_fit(zones@),
    {
        proof {
            use_type_invariant(self);
        }
        self.zones.as_slice()
    }
}

} // verus!
