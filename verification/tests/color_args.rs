use orgb::color_arg::{
    parse_rgb, resolve_on_color, rgb_argument_cuts_char, Channel, ColorArgError,
};
use orgb::lighting::Rgb;

fn rgb(red: u8, green: u8, blue: u8) -> Rgb {
    Rgb { red, green, blue }
}

#[test]
fn hex_colors_with_and_without_hash() {
    assert_eq!(parse_rgb("#FF0000"), Ok(rgb(255, 0, 0)));
    assert_eq!(parse_rgb("00ff7f"), Ok(rgb(0, 255, 127)));
    assert_eq!(parse_rgb("  #0a0B0c \n"), Ok(rgb(10, 11, 12)));
}

#[test]
fn decimal_channels_are_trimmed() {
    assert_eq!(parse_rgb("255, 128 ,0"), Ok(rgb(255, 128, 0)));
    assert_eq!(parse_rgb("+1,002,3"), Ok(rgb(1, 2, 3)));
}

#[test]
fn malformed_colors_are_refused() {
    assert_eq!(parse_rgb("1,2"), Err(ColorArgError::RgbFormat));
    assert_eq!(parse_rgb("1,2,3,4"), Err(ColorArgError::RgbFormat));
    assert_eq!(
        parse_rgb("256,0,0"),
        Err(ColorArgError::InvalidChannel(Channel::Red))
    );
    assert_eq!(
        parse_rgb("0,-1,0"),
        Err(ColorArgError::InvalidChannel(Channel::Green))
    );
    assert_eq!(
        parse_rgb("0,0,"),
        Err(ColorArgError::InvalidChannel(Channel::Blue))
    );
    assert_eq!(parse_rgb("#FFF"), Err(ColorArgError::HexFormat));
    assert_eq!(parse_rgb("##FF0000"), Err(ColorArgError::HexFormat));
    assert_eq!(
        parse_rgb("GG0000"),
        Err(ColorArgError::InvalidHexChannel(Channel::Red))
    );
    assert_eq!(
        parse_rgb("00+F00"),
        Ok(rgb(0, 15, 0))
    );
    assert_eq!(
        parse_rgb("0000-1"),
        Err(ColorArgError::InvalidHexChannel(Channel::Blue))
    );
    assert_eq!(
        parse_rgb("\u{e9}\u{e9}\u{e9}"),
        Err(ColorArgError::InvalidHexChannel(Channel::Red))
    );
}

#[test]
fn arguments_that_would_cut_a_character_are_detected() {
    assert!(rgb_argument_cuts_char("a\u{e9}bcd"));
    assert!(!rgb_argument_cuts_char("\u{e9}\u{e9}\u{e9}"));
    assert!(!rgb_argument_cuts_char("#FF0000"));
    assert!(!rgb_argument_cuts_char("1,\u{e9},3"));
}

#[test]
fn on_color_resolution() {
    assert_eq!(
        resolve_on_color(None, None, None, None),
        Ok(rgb(255, 0, 0))
    );
    assert_eq!(
        resolve_on_color(None, None, Some(9), None),
        Ok(rgb(0, 9, 0))
    );
    assert_eq!(
        resolve_on_color(Some("1,2,3".to_owned()), None, None, None),
        Ok(rgb(1, 2, 3))
    );
    assert_eq!(
        resolve_on_color(Some("#000000".to_owned()), Some(1), None, None),
        Err(ColorArgError::ConflictingColorArguments)
    );
}

#[test]
fn colors_read_back_from_their_text() {
    for red in 0..=255u8 {
        let color = rgb(red, red.wrapping_mul(7), 255 - red);
        let hex = format!("{:02X}{:02X}{:02X}", color.red, color.green, color.blue);
        assert!(!rgb_argument_cuts_char(&hex));
        assert_eq!(parse_rgb(&hex), Ok(color));
        let marked = format!("#{hex}");
        assert_eq!(parse_rgb(&marked), Ok(color));
        let decimal = format!("{},{},{}", color.red, color.green, color.blue);
        assert!(!rgb_argument_cuts_char(&decimal));
        assert_eq!(parse_rgb(&decimal), Ok(color));
    }
}
