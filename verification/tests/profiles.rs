use orgb::board::{BoardProfile, BrandId, ZoneKind};
use orgb::config::{
    ConfigError, ProfileCatalog, ProfileSource, RawBoardProfile, RawCapabilities, RawUsbMatch,
    RawZoneProfile,
};
use orgb::smbios::BoardIdentity;

fn zone(name: &str, kind: &str, capacity: usize) -> RawZoneProfile {
    RawZoneProfile {
        name: name.to_owned(),
        kind: kind.to_owned(),
        capacity,
        active_led_count: None,
    }
}

fn battle_ax_raw() -> RawBoardProfile {
    RawBoardProfile {
        vendor: "Colorful".to_owned(),
        model: "BATTLE-AX B860M-PLUS S WIFI7".to_owned(),
        revision: None,
        usb_match: RawUsbMatch {
            vendor_id: 0x2f4c,
            product_id: 0x1024,
            interface: 1,
        },
        protocol: "colorful-088".to_owned(),
        zones: vec![
            zone("5V_1", "argb", 100),
            zone("5V_2", "argb", 100),
            zone("5V_3", "argb", 100),
            zone("5V_4", "argb", 100),
            zone("5V_5", "argb", 100),
            zone("5V_6", "argb", 100),
            zone("12V_1", "rgb", 1),
            zone("12V_2", "rgb", 1),
        ],
        capabilities: RawCapabilities::default(),
    }
}

fn catalog() -> ProfileCatalog {
    ProfileCatalog::from_sources(vec![ProfileSource {
        path: "configs/colorful/battle-ax_b860m-plus_s_wifi7.toml".to_owned(),
        stem: Some("battle-ax_b860m-plus_s_wifi7".to_owned()),
        raw: battle_ax_raw(),
    }])
    .unwrap()
}

fn select_by_name(name: &str) -> Result<BoardProfile, ConfigError> {
    catalog().select(Some(name), BrandId::Colorful, None)
}

#[test]
fn loads_board_profile_from_toml() {
    let profile = select_by_name("battle-ax_b860m-plus_s_wifi7").unwrap();

    assert_eq!(profile.model, "BATTLE-AX B860M-PLUS S WIFI7");
    assert_eq!(profile.zones.len(), 8);
    assert_eq!(profile.topology().unwrap().led_count(), 602);
}

#[test]
fn defaults_active_led_count_to_capacity() {
    let raw = RawBoardProfile {
        vendor: "Colorful".to_owned(),
        model: "Test Board".to_owned(),
        revision: None,
        usb_match: RawUsbMatch {
            vendor_id: 1,
            product_id: 2,
            interface: 3,
        },
        protocol: "colorful-088".to_owned(),
        zones: vec![zone("ARGB_1", "argb", 12)],
        capabilities: RawCapabilities::default(),
    };

    let profile = raw.into_profile().unwrap();
    assert_eq!(profile.zones[0].active_led_count, 12);
    assert_eq!(profile.capabilities.max_leds, 12);
}

#[test]
fn selects_profile_by_smbios_identity() {
    let identity = BoardIdentity {
        vendor: "Colorful Technology And Development Co.,Ltd".to_owned(),
        model: "BATTLE-AX B860M-PLUS S WIFI7".to_owned(),
        revision: Some("V20".to_owned()),
    };

    let profile = catalog()
        .select(None, BrandId::Colorful, Some(&identity))
        .unwrap();
    assert_eq!(profile.model, identity.model);
}

#[test]
fn selection_by_model_ignores_ascii_case() {
    let profile = select_by_name("battle-ax b860m-plus s wifi7").unwrap();
    assert_eq!(profile.usb_match.vendor_id, 0x2f4c);
    assert_eq!(profile.capabilities.min_update_interval_us, 16_667);
    assert!(profile.capabilities.direct_rgb);
    assert!(!profile.capabilities.supports_readback);
}

#[test]
fn unknown_profile_name_is_reported_lowercased() {
    assert_eq!(
        select_by_name("Missing-Board"),
        Err(ConfigError::ProfileNotFound {
            requested: "missing-board".to_owned()
        })
    );
}

#[test]
fn automatic_selection_needs_an_identity() {
    assert_eq!(
        catalog().select(None, BrandId::Colorful, None),
        Err(ConfigError::IdentityRequired)
    );
}

#[test]
fn identity_of_another_model_matches_no_profile() {
    let identity = BoardIdentity {
        vendor: "Colorful".to_owned(),
        model: "B760M".to_owned(),
        revision: None,
    };
    assert_eq!(
        catalog().select(None, BrandId::Colorful, Some(&identity)),
        Err(ConfigError::NoUniqueMatch {
            brand: BrandId::Colorful,
            vendor: "Colorful".to_owned(),
            model: "B760M".to_owned(),
        })
    );
}

#[test]
fn identity_matching_ignores_punctuation_and_case() {
    let identity = BoardIdentity {
        vendor: "COLORFUL tech".to_owned(),
        model: "battle ax b860m plus s wifi 7".to_owned(),
        revision: None,
    };
    assert!(catalog()
        .select(None, BrandId::Colorful, Some(&identity))
        .is_ok());
}

#[test]
fn profile_revision_must_match_when_given() {
    let mut raw = battle_ax_raw();
    raw.revision = Some("V2.0".to_owned());
    let catalog = ProfileCatalog::from_sources(vec![ProfileSource {
        path: "a.toml".to_owned(),
        stem: Some("a".to_owned()),
        raw,
    }])
    .unwrap();
    let same = BoardIdentity {
        vendor: "Colorful".to_owned(),
        model: "BATTLE-AX B860M-PLUS S WIFI7".to_owned(),
        revision: Some("v20".to_owned()),
    };
    let missing = BoardIdentity {
        revision: None,
        ..same.clone()
    };
    assert!(catalog.select(None, BrandId::Colorful, Some(&same)).is_ok());
    assert!(catalog.select(None, BrandId::Colorful, Some(&missing)).is_err());
}

#[test]
fn two_matching_profiles_are_ambiguous() {
    let catalog = ProfileCatalog::from_sources(vec![
        ProfileSource {
            path: "a.toml".to_owned(),
            stem: Some("a".to_owned()),
            raw: battle_ax_raw(),
        },
        ProfileSource {
            path: "b.toml".to_owned(),
            stem: Some("b".to_owned()),
            raw: battle_ax_raw(),
        },
    ])
    .unwrap();
    let identity = BoardIdentity {
        vendor: "Colorful".to_owned(),
        model: "BATTLE-AX B860M-PLUS S WIFI7".to_owned(),
        revision: None,
    };
    assert!(matches!(
        catalog.select(None, BrandId::Colorful, Some(&identity)),
        Err(ConfigError::NoUniqueMatch { .. })
    ));
    assert!(catalog.select(Some("b"), BrandId::Colorful, None).is_ok());
}

#[test]
fn empty_catalog_is_refused() {
    assert!(matches!(
        ProfileCatalog::from_sources(Vec::new()),
        Err(ConfigError::NoProfiles)
    ));
}

#[test]
fn unsupported_vendor_and_protocol_are_named() {
    let mut raw = battle_ax_raw();
    raw.vendor = "  ASUS ".to_owned();
    assert_eq!(
        raw.into_profile(),
        Err(ConfigError::UnsupportedVendor {
            vendor: "asus".to_owned()
        })
    );
    let mut raw = battle_ax_raw();
    raw.protocol = " Colorful 088 ".to_owned();
    assert!(raw.into_profile().is_ok());
    let mut raw = battle_ax_raw();
    raw.protocol = "colorful-099".to_owned();
    assert_eq!(
        raw.into_profile(),
        Err(ConfigError::UnsupportedProtocol {
            protocol: "colorful-099".to_owned()
        })
    );
}

#[test]
fn blank_model_is_refused() {
    let mut raw = battle_ax_raw();
    raw.model = " \t ".to_owned();
    assert_eq!(raw.into_profile(), Err(ConfigError::EmptyModel));
}

#[test]
fn zone_errors_are_reported_for_the_first_bad_zone() {
    let mut raw = battle_ax_raw();
    raw.zones[2].kind = "RGBW".to_owned();
    raw.zones[3].capacity = 0;
    assert_eq!(
        raw.into_profile(),
        Err(ConfigError::UnsupportedZoneKind {
            kind: "rgbw".to_owned()
        })
    );

    let mut raw = battle_ax_raw();
    raw.zones[3].capacity = 0;
    assert_eq!(
        raw.into_profile(),
        Err(ConfigError::ZeroCapacity {
            zone: "5V_4".to_owned()
        })
    );

    let mut raw = battle_ax_raw();
    raw.zones[1].name = "  ".to_owned();
    assert_eq!(raw.into_profile(), Err(ConfigError::EmptyZoneName));

    let mut raw = battle_ax_raw();
    raw.zones[0].active_led_count = Some(101);
    assert_eq!(
        raw.into_profile(),
        Err(ConfigError::ActiveExceedsCapacity {
            zone: "5V_1".to_owned()
        })
    );
}

#[test]
fn zone_kinds_are_read_case_insensitively() {
    let mut raw = battle_ax_raw();
    raw.zones[0].kind = " ARGB ".to_owned();
    raw.zones[7].kind = "Rgb".to_owned();
    let profile = raw.into_profile().unwrap();
    assert_eq!(profile.zones[0].kind, ZoneKind::Argb);
    assert_eq!(profile.zones[7].kind, ZoneKind::Rgb);
}

#[test]
fn profile_without_zones_has_no_leds() {
    let mut raw = battle_ax_raw();
    raw.zones.clear();
    assert_eq!(raw.into_profile(), Err(ConfigError::NoLeds));
}

#[test]
fn max_leds_below_zone_capacity_is_refused() {
    let mut raw = battle_ax_raw();
    raw.capabilities.max_leds = Some(601);
    assert_eq!(
        raw.into_profile(),
        Err(ConfigError::MaxLedsTooSmall {
            max_leds: 601,
            led_count: 602
        })
    );
    let mut raw = battle_ax_raw();
    raw.capabilities.max_leds = Some(700);
    raw.capabilities.min_update_interval_us = Some(5_000);
    let profile = raw.into_profile().unwrap();
    assert_eq!(profile.capabilities.max_leds, 700);
    assert_eq!(profile.capabilities.min_update_interval_us, 5_000);
}

#[test]
fn first_refused_file_stops_the_catalog() {
    let mut bad = battle_ax_raw();
    bad.model = String::new();
    let result = ProfileCatalog::from_sources(vec![
        ProfileSource {
            path: "a.toml".to_owned(),
            stem: Some("a".to_owned()),
            raw: battle_ax_raw(),
        },
        ProfileSource {
            path: "b.toml".to_owned(),
            stem: Some("b".to_owned()),
            raw: bad,
        },
    ]);
    assert!(matches!(result, Err(ConfigError::EmptyModel)));
}

#[test]
fn default_capabilities_turn_direct_and_per_led_color_on() {
    let capabilities = RawCapabilities::default();
    assert!(capabilities.direct_rgb);
    assert!(capabilities.per_led);
    assert!(!capabilities.supports_readback);
    assert_eq!(capabilities.max_leds, None);
    assert!(orgb::config::default_true());
}
