use vivid::color::{Ansi3Bit, Color, ColorMode, ColorType};
use vivid::error::VividError;

#[test]
fn from_hex_str_6chars() {
    let color = Color::from_hex_str("4ec703").unwrap();
    assert_eq!(Color::Rgb(0x4e, 0xc7, 0x03), color);
}

#[test]
fn from_hex_str_3chars() {
    let color = Color::from_hex_str("4ec").unwrap();
    assert_eq!(Color::Rgb(0x44, 0xee, 0xcc), color);
}

#[test]
fn from_hex_str_errors() {
    assert!(Color::from_hex_str("").is_err());
    assert!(Color::from_hex_str("fffffff").is_err());
    assert!(Color::from_hex_str("4e").is_err());
    assert!(Color::from_hex_str("ffggff").is_err());
    assert!(Color::from_hex_str("ff ").is_err());
}

#[test]
fn fg_white() {
    let white = Color::Rgb(0xff, 0xff, 0xff);
    let style_8bit = white.get_style(ColorType::Foreground, ColorMode::BitDepth8);
    assert_eq!("38;5;231", style_8bit);

    let style_24bit = white.get_style(ColorType::Foreground, ColorMode::BitDepth24);
    assert_eq!("38;2;255;255;255", style_24bit);
}

#[test]
fn bg_black() {
    let black = Color::Rgb(0x00, 0x00, 0x00);
    let style_8bit = black.get_style(ColorType::Background, ColorMode::BitDepth8);
    assert_eq!("48;5;16", style_8bit);

    let style_24bit = black.get_style(ColorType::Background, ColorMode::BitDepth24);
    assert_eq!("48;2;0;0;0", style_24bit);
}

#[test]
fn fg_red() {
    let red = Color::Rgb(0xff, 0x00, 0x00);
    let style_8bit = red.get_style(ColorType::Foreground, ColorMode::BitDepth8);
    assert_eq!("38;5;196", style_8bit);

    let style_24bit = red.get_style(ColorType::Foreground, ColorMode::BitDepth24);
    assert_eq!("38;2;255;0;0", style_24bit);
}

#[test]
fn ansi_3bit() {
    assert_eq!(
        Color::Ansi3Bit(Ansi3Bit::Black),
        "ansi:black".parse().unwrap()
    );
    assert_eq!(
        Color::Ansi3Bit(Ansi3Bit::Green),
        "ansi:green".parse().unwrap()
    );
    assert_eq!(
        Color::Ansi3Bit(Ansi3Bit::BrightYellow),
        "ansi:bright_yellow".parse().unwrap()
    );
    assert_eq!(
        Color::Ansi3Bit(Ansi3Bit::BrightCyan),
        "ansi:bright_cyan".parse().unwrap()
    );
}

#[test]
fn hex_then_truecolor_gives_the_components() {
    let color = Color::from_hex_str("00ff7f").unwrap();
    assert_eq!(Color::Rgb(0, 255, 127), color);
    assert_eq!(
        "38;2;0;255;127",
        color.get_style(ColorType::Foreground, ColorMode::BitDepth24)
    );
    assert_eq!(
        "48;2;0;255;127",
        color.get_style(ColorType::Background, ColorMode::BitDepth24)
    );
    let color = Color::from_hex_str("4ec703").unwrap();
    assert_eq!(
        "38;2;78;199;3",
        color.get_style(ColorType::Foreground, ColorMode::BitDepth24)
    );
}

#[test]
fn shorthand_equals_doubled_digits() {
    assert_eq!(
        Color::from_hex_str("4ec").unwrap(),
        Color::from_hex_str("44eecc").unwrap()
    );
    assert_eq!(Color::parse("fff").unwrap(), Color::parse("ffffff").unwrap());
    assert_eq!(Color::parse("0a9").unwrap(), Color::Rgb(0x00, 0xaa, 0x99));
}

#[test]
fn hex_digits_in_either_case() {
    assert_eq!(Color::Rgb(0xab, 0xcd, 0xef), Color::from_hex_str("ABCDEF").unwrap());
    assert_eq!(Color::Rgb(0xab, 0xcd, 0xef), Color::from_hex_str("abcdef").unwrap());
    assert_eq!(Color::Rgb(0xaa, 0xbb, 0xcc), Color::from_hex_str("AbC").unwrap());
}

#[test]
fn hex_errors_carry_the_string() {
    for input in ["", "fffffff", "4e", "ffggff", "ff ", "+f+f+f", "-1-1-1", "ff ff", "ｆｆｆ", "fffff "] {
        match Color::from_hex_str(input) {
            Err(VividError::ColorParseError(s)) => assert_eq!(input, s),
            other => panic!("{:?} for {:?}", other, input),
        }
    }
}

#[test]
fn parse_errors_carry_the_string() {
    for input in ["", "ansi:", "ansi:orange", "ansi:Black", " ansi:black", "black", "12345"] {
        match Color::parse(input) {
            Err(VividError::ColorParseError(s)) => assert_eq!(input, s),
            other => panic!("{:?} for {:?}", other, input),
        }
        assert!(input.parse::<Color>().is_err());
    }
}

#[test]
fn every_ansi_name() {
    let names = [
        ("ansi:black", Ansi3Bit::Black, "30", "40"),
        ("ansi:red", Ansi3Bit::Red, "31", "41"),
        ("ansi:green", Ansi3Bit::Green, "32", "42"),
        ("ansi:yellow", Ansi3Bit::Yellow, "33", "43"),
        ("ansi:blue", Ansi3Bit::Blue, "34", "44"),
        ("ansi:magenta", Ansi3Bit::Magenta, "35", "45"),
        ("ansi:cyan", Ansi3Bit::Cyan, "36", "46"),
        ("ansi:white", Ansi3Bit::White, "37", "47"),
        ("ansi:bright_black", Ansi3Bit::BrightBlack, "90", "100"),
        ("ansi:bright_red", Ansi3Bit::BrightRed, "91", "101"),
        ("ansi:bright_green", Ansi3Bit::BrightGreen, "92", "102"),
        ("ansi:bright_yellow", Ansi3Bit::BrightYellow, "93", "103"),
        ("ansi:bright_blue", Ansi3Bit::BrightBlue, "94", "104"),
        ("ansi:bright_magenta", Ansi3Bit::BrightMagenta, "95", "105"),
        ("ansi:bright_cyan", Ansi3Bit::BrightCyan, "96", "106"),
        ("ansi:bright_white", Ansi3Bit::BrightWhite, "97", "107"),
    ];
    for (name, color, foreground, background) in names {
        let parsed = Color::from_ansi_name(name).unwrap();
        assert_eq!(Color::Ansi3Bit(color), parsed);
        assert_eq!(parsed, Color::parse(name).unwrap());
        for mode in [ColorMode::BitDepth24, ColorMode::BitDepth8] {
            assert_eq!(foreground, parsed.get_style(ColorType::Foreground, mode));
            assert_eq!(background, parsed.get_style(ColorType::Background, mode));
        }
    }
}

#[test]
fn unset_has_no_parameters() {
    for colortype in [ColorType::Foreground, ColorType::Background] {
        for mode in [ColorMode::BitDepth24, ColorMode::BitDepth8] {
            assert_eq!("", Color::Unset.get_style(colortype, mode));
        }
    }
}

#[test]
fn palette_indices_of_known_colors() {
    let index = |r, g, b| Color::Rgb(r, g, b).get_style(ColorType::Foreground, ColorMode::BitDepth8);
    assert_eq!("38;5;231", index(255, 255, 255));
    assert_eq!("38;5;16", index(0, 0, 0));
    assert_eq!("38;5;196", index(255, 0, 0));
    assert_eq!("38;5;16", index(1, 1, 1));
    assert_eq!("38;5;67", index(95, 135, 175));
    assert_eq!("38;5;128", index(175, 0, 215));
    assert_eq!("38;5;244", index(128, 128, 128));
}

#[test]
fn palette_and_truecolor_styles_by_hand() {
    assert_eq!("38;5;0", Color::palette_style(ColorType::Foreground, 0));
    assert_eq!("48;5;9", Color::palette_style(ColorType::Background, 9));
    assert_eq!("48;5;10", Color::palette_style(ColorType::Background, 10));
    assert_eq!("38;5;99", Color::palette_style(ColorType::Foreground, 99));
    assert_eq!("38;5;100", Color::palette_style(ColorType::Foreground, 100));
    assert_eq!("38;5;255", Color::palette_style(ColorType::Foreground, 255));
    assert_eq!(
        "48;2;1;20;200",
        Color::truecolor_style(ColorType::Background, 1, 20, 200)
    );
}

#[test]
fn layer_codes() {
    assert_eq!("38", ColorType::Foreground.get_code());
    assert_eq!("48", ColorType::Background.get_code());
    assert_eq!(0, ColorType::Foreground.bg_addition());
    assert_eq!(10, ColorType::Background.bg_addition());
    assert_eq!(30, Ansi3Bit::Black.code());
    assert_eq!(97, Ansi3Bit::BrightWhite.code());
}

#[test]
fn color_mode_by_name() {
    assert_eq!(ColorMode::BitDepth8, ColorMode::from_name(Some("8-bit")));
    assert_eq!(ColorMode::BitDepth24, ColorMode::from_name(Some("24-bit")));
    assert_eq!(ColorMode::BitDepth24, ColorMode::from_name(Some("8-Bit")));
    assert_eq!(ColorMode::BitDepth24, ColorMode::from_name(Some("")));
    assert_eq!(ColorMode::BitDepth24, ColorMode::from_name(None));
}
