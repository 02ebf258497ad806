use ara::color::Color;
use ara::color_text::parse_color;
use ara::color_text::parse_color_bytes;
use ara::color_text::ColorParseError;

fn rgba(r: u8, g: u8, b: u8, a: u8) -> Result<Color, ColorParseError> {
    Ok(Color { r, g, b, a })
}

#[test]
fn color_text_hex_forms() {
    assert_eq!(parse_color("#fff"), rgba(255, 255, 255, 255));
    assert_eq!(parse_color("#1a2"), rgba(0x11, 0xaa, 0x22, 255));
    assert_eq!(parse_color("#1A2b"), rgba(0x11, 0xaa, 0x22, 0xbb));
    assert_eq!(parse_color("#ff8040"), rgba(0xff, 0x80, 0x40, 255));
    assert_eq!(parse_color("#FF804020"), rgba(0xff, 0x80, 0x40, 0x20));
    assert_eq!(parse_color("  #000\t\n"), rgba(0, 0, 0, 255));
    // A sign stands for a leading zero in a pair, as in a number.
    assert_eq!(parse_color("#+f+0+a"), rgba(15, 0, 10, 255));
}

#[test]
fn color_text_functional_forms() {
    assert_eq!(parse_color("rgb(1, 2, 3)"), rgba(1, 2, 3, 255));
    assert_eq!(parse_color("rgb(255,0,+7)"), rgba(255, 0, 7, 255));
    assert_eq!(parse_color(" rgb( 001 ,2 , 3 ) "), rgba(1, 2, 3, 255));
    assert_eq!(parse_color("rgba(1, 2, 3, 0.5)"), rgba(1, 2, 3, 128));
    assert_eq!(parse_color("rgba(1, 2, 3, 1)"), rgba(1, 2, 3, 255));
    assert_eq!(parse_color("rgba(1, 2, 3, 7.25)"), rgba(1, 2, 3, 255));
    assert_eq!(parse_color("rgba(1, 2, 3, 0)"), rgba(1, 2, 3, 0));
    assert_eq!(parse_color("rgba(1, 2, 3, -0.5)"), rgba(1, 2, 3, 0));
    assert_eq!(parse_color("rgba(1, 2, 3, .2)"), rgba(1, 2, 3, 51));
    assert_eq!(parse_color("rgba(1, 2, 3, 0.)"), rgba(1, 2, 3, 0));
    assert_eq!(parse_color("rgba(1, 2, 3, 0.1)"), rgba(1, 2, 3, 26));
    assert_eq!(parse_color("rgba(1, 2, 3, 0.0999999999999)"), rgba(1, 2, 3, 25));
    assert_eq!(parse_color("rgba(1, 2, 3, 0.998)"), rgba(1, 2, 3, 254));
    assert_eq!(parse_color("rgba(1, 2, 3, 0.999)"), rgba(1, 2, 3, 255));
}

#[test]
fn color_text_errors() {
    assert_eq!(parse_color("#ff"), Err(ColorParseError::HexFormat));
    assert_eq!(parse_color("#"), Err(ColorParseError::HexFormat));
    assert_eq!(parse_color("#fffff"), Err(ColorParseError::HexFormat));
    assert_eq!(parse_color("#ggg"), Err(ColorParseError::Number));
    assert_eq!(parse_color("#ff80zz"), Err(ColorParseError::Number));
    assert_eq!(parse_color("#-f-f-f"), Err(ColorParseError::Number));
    assert_eq!(parse_color("#fff+"), Err(ColorParseError::Number));
    assert_eq!(parse_color("rgb(1, 2, 3"), Err(ColorParseError::Functional));
    assert_eq!(parse_color("rgb("), Err(ColorParseError::Functional));
    assert_eq!(parse_color("rgb(1, 2)"), Err(ColorParseError::FunctionalCount));
    assert_eq!(parse_color("rgb()"), Err(ColorParseError::FunctionalCount));
    assert_eq!(parse_color("rgb(1, 2, 3, 4)"), Err(ColorParseError::FunctionalCount));
    assert_eq!(parse_color("rgba(1, 2, 3)"), Err(ColorParseError::FunctionalCount));
    assert_eq!(parse_color("rgba(1, 2, 3, 4, 5)"), Err(ColorParseError::FunctionalCount));
    assert_eq!(parse_color("rgb(1, 2, 256)"), Err(ColorParseError::Number));
    assert_eq!(parse_color("rgb(1, , 3)"), Err(ColorParseError::Number));
    assert_eq!(parse_color("rgb(1, -2, 3)"), Err(ColorParseError::Number));
    assert_eq!(parse_color("rgb(1, 2, 3x)"), Err(ColorParseError::Number));
    assert_eq!(parse_color("rgb(1, 2, 99999999999999999999)"), Err(ColorParseError::Number));
    assert_eq!(parse_color("rgba(1, 2, 3, x)"), Err(ColorParseError::Number));
    assert_eq!(parse_color("rgba(1, 2, 3, .)"), Err(ColorParseError::Number));
    assert_eq!(parse_color("rgba(1, 2, 3, )"), Err(ColorParseError::Number));
    assert_eq!(parse_color("rgba(1, 2, 3, 1e2)"), Err(ColorParseError::Number));
    assert_eq!(parse_color("red"), Err(ColorParseError::Format));
    assert_eq!(parse_color(""), Err(ColorParseError::Format));
    assert_eq!(parse_color("   "), Err(ColorParseError::Format));
    assert_eq!(parse_color("RGB(1, 2, 3)"), Err(ColorParseError::Format));
    assert_eq!(parse_color_bytes(&[0x23, 0xc3, 0xa9, 0x61]), Err(ColorParseError::Number));
    assert!(!ColorParseError::Format.message().is_empty());
    assert!(ColorParseError::HexFormat.message().contains("#rrggbbaa"));
}
