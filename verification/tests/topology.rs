use orgb::board::{LedInfo, Position, Topology, TopologyError, Zone, ZoneKind};
use orgb::board::{BoardProfile, BrandId, DeviceCapabilities, ProtocolKind, UsbMatch, ZoneProfile};

fn zone_profile(name: &str, kind: ZoneKind, capacity: usize, active: usize) -> ZoneProfile {
    ZoneProfile {
        name: name.to_owned(),
        kind,
        capacity,
        active_led_count: active,
    }
}

fn profile(zones: Vec<ZoneProfile>) -> BoardProfile {
    BoardProfile {
        brand: BrandId::Colorful,
        model: "test".to_owned(),
        revision: None,
        usb_match: UsbMatch {
            vendor_id: 0,
            product_id: 0,
            interface: 0,
        },
        protocol: ProtocolKind::Colorful088,
        zones,
        capabilities: DeviceCapabilities {
            direct_rgb: true,
            per_led: true,
            max_leds: 100,
            min_update_interval_us: 0,
            supports_readback: false,
        },
    }
}

#[test]
fn zones_are_laid_end_to_end_and_only_driven_leds_are_listed() {
    let topology = profile(vec![
        zone_profile("A", ZoneKind::Argb, 4, 2),
        zone_profile("B", ZoneKind::Rgb, 1, 1),
        zone_profile("C", ZoneKind::Argb, 3, 3),
    ])
    .topology()
    .unwrap();

    let offsets = topology.zones().iter().map(|z| z.offset).collect::<Vec<_>>();
    assert_eq!(offsets, vec![0, 4, 5]);
    let ids = topology
        .leds()
        .iter()
        .map(|(info, _)| (info.id, info.zone_id))
        .collect::<Vec<_>>();
    assert_eq!(ids, vec![(0, 0), (1, 0), (4, 1), (5, 2), (6, 2), (7, 2)]);
    assert_eq!(topology.led_count(), 6);
    let (_, last) = topology.leds()[5];
    assert_eq!(
        last,
        Position {
            x_numerator: 7,
            x_denominator: 7
        }
    );
}

#[test]
fn single_slot_board_has_position_denominator_one() {
    let topology = profile(vec![zone_profile("A", ZoneKind::Rgb, 1, 1)])
        .topology()
        .unwrap();
    assert_eq!(
        topology.leds()[0].1,
        Position {
            x_numerator: 0,
            x_denominator: 1
        }
    );
}

#[test]
fn topology_errors() {
    assert_eq!(
        profile(vec![]).topology().unwrap_err(),
        TopologyError::NoCapacity
    );
    assert_eq!(
        profile(vec![zone_profile("A", ZoneKind::Argb, 3, 0)])
            .topology()
            .unwrap_err(),
        TopologyError::NoLeds
    );
    assert_eq!(
        profile(vec![
            zone_profile("A", ZoneKind::Argb, 3, 3),
            zone_profile("B", ZoneKind::Argb, 3, 4),
            zone_profile("C", ZoneKind::Argb, 3, 5),
        ])
        .topology()
        .unwrap_err(),
        TopologyError::ActiveExceedsCapacity {
            zone: "B".to_owned()
        }
    );
}

#[test]
fn new_topology_checks_leds_and_zones() {
    let led = (
        LedInfo { id: 0, zone_id: 0 },
        Position {
            x_numerator: 0,
            x_denominator: 1,
        },
    );
    let zone = |active| Zone {
        id: 0,
        name: "Z".to_owned(),
        kind: ZoneKind::Argb,
        offset: 0,
        capacity: 1,
        active_led_count: active,
    };
    assert_eq!(
        Topology::new(Vec::new(), vec![zone(1)]).unwrap_err(),
        TopologyError::NoLeds
    );
    assert_eq!(
        Topology::new(vec![led], vec![zone(2)]).unwrap_err(),
        TopologyError::ActiveExceedsCapacity {
            zone: "Z".to_owned()
        }
    );
    let topology = Topology::new(vec![led], vec![zone(1)]).unwrap();
    assert_eq!(topology.led_count(), 1);
    assert_eq!(topology.zones().len(), 1);
}
