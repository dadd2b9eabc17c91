use orgb::board::BrandId;
use orgb::config::{
    ProfileCatalog, ProfileSource, RawBoardProfile, RawCapabilities, RawUsbMatch, RawZoneProfile,
};
use orgb::drivers::colorful::{encode_submission, Colorful088Codec, ColorfulFamilyDriver};
use orgb::drivers::{BoardDriver, DriverError};
use orgb::lighting::{Frame, Rgb};
use orgb::protocol::{CodecError, ProtocolCodec};
use orgb::smbios::BoardIdentity;

const RED: Rgb = Rgb {
    red: 255,
    green: 0,
    blue: 0,
};

fn zone(name: &str, kind: &str, capacity: usize) -> RawZoneProfile {
    RawZoneProfile {
        name: name.to_owned(),
        kind: kind.to_owned(),
        capacity,
        active_led_count: None,
    }
}

fn profile_catalog() -> ProfileCatalog {
    let raw = RawBoardProfile {
        vendor: "Colorful".to_owned(),
        model: "BATTLE-AX B860M-PLUS S WIFI7".to_owned(),
        revision: None,
        usb_match: RawUsbMatch {
            vendor_id: 0x2f4c,
            product_id: 0x1024,
            interface: 1,
        },
        protocol: "colorful-088".to_owned(),
        zones: vec![
            zone("5V_1", "argb", 100),
            zone("5V_2", "argb", 100),
            zone("5V_3", "argb", 100),
            zone("5V_4", "argb", 100),
            zone("5V_5", "argb", 100),
            zone("5V_6", "argb", 100),
            zone("12V_1", "rgb", 1),
            zone("12V_2", "rgb", 1),
        ],
        capabilities: RawCapabilities::default(),
    };
    ProfileCatalog::from_sources(vec![ProfileSource {
        path: "configs/colorful/battle-ax_b860m-plus_s_wifi7.toml".to_owned(),
        stem: Some("battle-ax_b860m-plus_s_wifi7".to_owned()),
        raw,
    }])
    .unwrap()
}

#[test]
fn codec_maps_all_602_leds_to_five_packets() {
    let driver =
        ColorfulFamilyDriver::load_profile(&profile_catalog(), "battle-ax_b860m-plus_s_wifi7")
            .unwrap();
    let frame = Frame::solid(driver.topology().unwrap().led_count(), RED);
    let packets = Colorful088Codec.encode_frame(&frame).unwrap();

    assert_eq!(packets.len(), 5);
    assert_eq!(
        packets.iter().map(Vec::len).collect::<Vec<_>>(),
        vec![604; 5]
    );
    assert_eq!(&packets[0][4..7], &[255, 0, 0]);
    assert_eq!(&packets[3][4..7], &[255, 0, 0]);
    assert_eq!(packets[4][3], 0xff);
    assert!(packets[4][4..].iter().all(|byte| *byte == 0));
}

#[test]
fn topology_has_six_5v_and_two_12v_zones() {
    let driver =
        ColorfulFamilyDriver::load_profile(&profile_catalog(), "battle-ax_b860m-plus_s_wifi7")
            .unwrap();
    let topology = driver.topology().unwrap();

    assert_eq!(topology.led_count(), 602);
    assert_eq!(topology.zones().len(), 8);
    assert_eq!(topology.zones()[0].name, "5V_1");
    assert_eq!(topology.zones()[6].name, "12V_1");
}

#[test]
fn codec_pages_follow_frame_length() {
    let frame = Frame::solid(302, RED);
    let packets = Colorful088Codec.encode_frame(&frame).unwrap();

    assert_eq!(packets.len(), 3);
    assert_eq!(packets[0][3], 0x00);
    assert_eq!(packets[1][3], 0x01);
    assert_eq!(packets[2][3], 0xff);
}

#[test]
fn codec_writes_each_led_at_its_page_slot() {
    let pixels = (0..450u32)
        .map(|i| Rgb {
            red: (i % 256) as u8,
            green: (i / 256) as u8,
            blue: 7,
        })
        .collect::<Vec<_>>();
    let packets = Colorful088Codec
        .encode_frame(&Frame::from_pixels(pixels.clone()))
        .unwrap();

    assert_eq!(packets.len(), 4);
    for (i, pixel) in pixels.iter().enumerate() {
        let packet = &packets[i / 200];
        let offset = 4 + 3 * (i % 200);
        assert_eq!(packet[offset..offset + 3], [pixel.red, pixel.green, pixel.blue]);
    }
    assert_eq!(&packets[0][0..4], &[0x01, 0x00, 0x88, 0x00]);
    assert_eq!(&packets[2][0..4], &[0x01, 0x00, 0x88, 0x02]);
    let last_data_end = 4 + 3 * 50;
    assert!(packets[2][last_data_end..].iter().all(|byte| *byte == 0));
}

#[test]
fn solid_frames_carry_their_color_in_every_slot() {
    let color = Rgb {
        red: 1,
        green: 2,
        blue: 3,
    };
    for n in [1usize, 199, 200, 201, 602] {
        let packets = Colorful088Codec
            .encode_frame(&Frame::solid(n, color))
            .unwrap();
        assert_eq!(packets.len(), (n + 199) / 200 + 1);
        for i in 0..n {
            let offset = 4 + 3 * (i % 200);
            assert_eq!(packets[i / 200][offset..offset + 3], [1, 2, 3]);
        }
    }
}

#[test]
fn codec_refuses_empty_and_oversized_frames() {
    assert_eq!(
        Colorful088Codec.encode_frame(&Frame::from_pixels(Vec::new())),
        Err(CodecError::EmptyFrame)
    );
    assert_eq!(
        Colorful088Codec.encode_frame(&Frame::solid(255 * 200 + 1, RED)),
        Err(CodecError::TooManyPages { page_count: 256 })
    );
    assert_eq!(
        Colorful088Codec
            .encode_frame(&Frame::solid(255 * 200, RED))
            .unwrap()
            .len(),
        256
    );
}

#[test]
fn submission_needs_one_color_per_led() {
    let driver =
        ColorfulFamilyDriver::load_profile(&profile_catalog(), "battle-ax_b860m-plus_s_wifi7")
            .unwrap();
    let topology = driver.topology().unwrap();
    assert_eq!(
        encode_submission(&topology, &Frame::solid(10, RED)),
        Err(DriverError::FrameLength {
            expected: 602,
            got: 10
        })
    );
    assert_eq!(
        encode_submission(&topology, &Frame::solid(602, RED))
            .unwrap()
            .len(),
        5
    );
}

#[test]
fn board_driver_picks_the_colorful_family_by_vendor() {
    let catalog = profile_catalog();
    let identity = BoardIdentity {
        vendor: "Colorful Technology And Development Co.,Ltd".to_owned(),
        model: "BATTLE-AX B860M-PLUS S WIFI7".to_owned(),
        revision: None,
    };
    let driver = BoardDriver::load_for_identity(&catalog, &identity, None).unwrap();
    assert_eq!(driver.profile().model, "BATTLE-AX B860M-PLUS S WIFI7");
    assert_eq!(driver.topology().unwrap().zones().len(), 8);
    assert_eq!(
        BoardDriver::brand_for_identity(&identity),
        Ok(BrandId::Colorful)
    );

    let other = BoardIdentity {
        vendor: "Micro-Star International".to_owned(),
        model: "X".to_owned(),
        revision: None,
    };
    assert!(matches!(
        BoardDriver::load_for_identity(&catalog, &other, None),
        Err(DriverError::UnsupportedVendor { .. })
    ));
}

#[test]
fn family_driver_by_identity_and_missing_profile() {
    let catalog = profile_catalog();
    let identity = BoardIdentity {
        vendor: "Colorful".to_owned(),
        model: "BATTLE-AX B860M-PLUS S WIFI7".to_owned(),
        revision: Some("V20".to_owned()),
    };
    let driver = ColorfulFamilyDriver::load_for_identity(&catalog, &identity, None).unwrap();
    assert_eq!(driver.profile().zones.len(), 8);
    assert!(matches!(
        ColorfulFamilyDriver::load_profile(&catalog, "nope"),
        Err(DriverError::Config(_))
    ));
}
