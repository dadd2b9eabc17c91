use orgb::board::{BoardProfile, BrandId, DeviceCapabilities, ProtocolKind, UsbMatch, ZoneKind, ZoneProfile};
use orgb::effects::{wheel_color, zone_spatial_slot, EffectKind, SpatialSlot};
use orgb::lighting::{Frame, Rgb};

fn topology() -> orgb::board::Topology {
    let zone = |name: &str, kind, capacity| ZoneProfile {
        name: name.to_owned(),
        kind,
        capacity,
        active_led_count: capacity,
    };
    BoardProfile {
        brand: BrandId::Colorful,
        model: "t".to_owned(),
        revision: None,
        usb_match: UsbMatch {
            vendor_id: 0,
            product_id: 0,
            interface: 0,
        },
        protocol: ProtocolKind::Colorful088,
        zones: vec![zone("A", ZoneKind::Argb, 2), zone("B", ZoneKind::Argb, 1), zone("C", ZoneKind::Rgb, 1)],
        capabilities: DeviceCapabilities {
            direct_rgb: true,
            per_led: true,
            max_leds: 4,
            min_update_interval_us: 0,
            supports_readback: false,
        },
    }
    .topology()
    .unwrap()
}

#[test]
fn spatial_slots_restart_at_each_argb_zone() {
    let topology = topology();
    assert_eq!(zone_spatial_slot(&topology, 0, 0), SpatialSlot::ZoneStep(0));
    assert_eq!(zone_spatial_slot(&topology, 1, 0), SpatialSlot::ZoneStep(1));
    assert_eq!(zone_spatial_slot(&topology, 2, 1), SpatialSlot::ZoneStep(0));
    assert_eq!(zone_spatial_slot(&topology, 3, 2), SpatialSlot::InPhase);
    assert_eq!(zone_spatial_slot(&topology, 3, 9), SpatialSlot::Fallback);
    assert_eq!(zone_spatial_slot(&topology, 0, 1), SpatialSlot::ZoneStep(0));
}

#[test]
fn wheel_sectors() {
    assert_eq!(wheel_color(0, 7, 9), Rgb { red: 255, green: 7, blue: 0 });
    assert_eq!(wheel_color(1, 7, 9), Rgb { red: 9, green: 255, blue: 0 });
    assert_eq!(wheel_color(2, 7, 9), Rgb { red: 0, green: 255, blue: 7 });
    assert_eq!(wheel_color(3, 7, 9), Rgb { red: 0, green: 9, blue: 255 });
    assert_eq!(wheel_color(4, 7, 9), Rgb { red: 7, green: 0, blue: 255 });
    assert_eq!(wheel_color(5, 7, 9), Rgb { red: 255, green: 0, blue: 9 });
    assert_eq!(wheel_color(6, 7, 9), Rgb { red: 255, green: 0, blue: 9 });
}

#[test]
fn effect_kinds_are_distinct() {
    assert_ne!(EffectKind::Solid, EffectKind::Rainbow);
    assert_eq!(EffectKind::Cycle, EffectKind::Cycle);
}

#[test]
fn solid_frame_fills_every_led() {
    let frame = Frame::solid(3, Rgb { red: 255, green: 0, blue: 0 });

    assert_eq!(
        frame,
        Frame::from_pixels(vec![
            Rgb {
                red: 255,
                green: 0,
                blue: 0,
            };
            3
        ])
    );
    assert_eq!(frame.len(), 3);
    assert_eq!(Rgb::black(), Rgb { red: 0, green: 0, blue: 0 });
}
