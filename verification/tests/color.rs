use sysfetch::color::{Color, Colorize};

#[test]
fn parse_named_colors() {
    assert_eq!(Color::parse("black").unwrap(), Color::Black);
    assert_eq!(Color::parse("red").unwrap(), Color::Red);
    assert_eq!(Color::parse("green").unwrap(), Color::Green);
    assert_eq!(Color::parse("yellow").unwrap(), Color::Yellow);
    assert_eq!(Color::parse("blue").unwrap(), Color::Blue);
    assert_eq!(Color::parse("magenta").unwrap(), Color::Magenta);
    assert_eq!(Color::parse("cyan").unwrap(), Color::Cyan);
    assert_eq!(Color::parse("white").unwrap(), Color::White);
    assert_eq!(Color::parse("reset").unwrap(), Color::Reset);
    assert_eq!(Color::parse("bright_black").unwrap(), Color::BrightBlack);
    assert_eq!(Color::parse("bright_white").unwrap(), Color::BrightWhite);
}

#[test]
fn parse_aliases() {
    assert_eq!(Color::parse("purple").unwrap(), Color::Magenta);
    assert_eq!(Color::parse("gray").unwrap(), Color::White);
    assert_eq!(Color::parse("grey").unwrap(), Color::White);
    assert_eq!(Color::parse("bright cyan").unwrap(), Color::BrightCyan);
    assert_eq!(Color::parse("bright magenta").unwrap(), Color::BrightMagenta);
}

#[test]
fn parse_is_case_insensitive() {
    assert_eq!(Color::parse("RED").unwrap(), Color::Red);
    assert_eq!(Color::parse("Bright Cyan").unwrap(), Color::BrightCyan);
    assert_eq!(Color::parse("PURPLE").unwrap(), Color::Magenta);
    assert_eq!(Color::parse("ReSeT").unwrap(), Color::Reset);
}

#[test]
fn parse_indexed() {
    assert_eq!(Color::parse("0").unwrap(), Color::Color256(0));
    assert_eq!(Color::parse("69").unwrap(), Color::Color256(69));
    assert_eq!(Color::parse("255").unwrap(), Color::Color256(255));
}

#[test]
fn parse_hex() {
    assert_eq!(Color::parse("#ff00aa").unwrap(), Color::TrueColor(0xaa, 0x00, 0xff));
    assert_eq!(Color::parse("#FFFFFF").unwrap(), Color::TrueColor(255, 255, 255));
    assert_eq!(Color::parse("abcdef").unwrap(), Color::TrueColor(0xef, 0xcd, 0xab));
    // An out-of-range decimal numeral still reads as hexadecimal.
    assert_eq!(Color::parse("256").unwrap(), Color::TrueColor(0x56, 0x02, 0x00));
}

#[test]
fn parse_rejects_invalid_text() {
    let e = Color::parse("notacolor").unwrap_err();
    assert_eq!(e.as_str(), "'notacolor' is not a valid color");
    assert!(Color::parse("").is_err());
    assert!(Color::parse("#").is_err());
    assert!(Color::parse("#ggg").is_err());
    assert!(Color::parse("zzz").is_err());
    assert!(Color::parse("#1000000").is_err());
}

#[test]
fn to_text_canonical_forms() {
    assert_eq!(Color::Black.to_text().as_str(), "black");
    assert_eq!(Color::BrightCyan.to_text().as_str(), "bright_cyan");
    assert_eq!(Color::Reset.to_text().as_str(), "reset");
    assert_eq!(Color::Color256(0).to_text().as_str(), "0");
    assert_eq!(Color::Color256(69).to_text().as_str(), "69");
    assert_eq!(Color::Color256(255).to_text().as_str(), "255");
    assert_eq!(Color::TrueColor(255, 255, 255).to_text().as_str(), "#ffffff");
}

#[test]
fn round_trip_all_named() {
    let named = [
        Color::Black,
        Color::Red,
        Color::Green,
        Color::Yellow,
        Color::Blue,
        Color::Magenta,
        Color::Cyan,
        Color::White,
        Color::BrightBlack,
        Color::BrightRed,
        Color::BrightGreen,
        Color::BrightYellow,
        Color::BrightBlue,
        Color::BrightMagenta,
        Color::BrightCyan,
        Color::BrightWhite,
        Color::Reset,
    ];
    for c in named {
        assert_eq!(Color::parse(c.to_text().as_str()).unwrap(), c);
    }
}

#[test]
fn round_trip_indexed_and_rgb() {
    for n in [0u8, 1, 9, 10, 99, 100, 254, 255] {
        let c = Color::Color256(n);
        assert_eq!(Color::parse(c.to_text().as_str()).unwrap(), c);
    }
    let triples = [
        (0u8, 0u8, 0u8),
        (1, 0, 0),
        (0, 1, 0),
        (0, 0, 1),
        (255, 0, 0),
        (0xaa, 0x00, 0xff),
        (255, 255, 255),
        (16, 32, 64),
    ];
    for (r, g, b) in triples {
        let c = Color::TrueColor(r, g, b);
        assert_eq!(Color::parse(c.to_text().as_str()).unwrap(), c);
    }
}

#[test]
fn hex_round_trip_edge_case() {
    let c = Color::parse("#ff00aa").unwrap();
    assert_eq!(c.to_text().as_str(), "#ff00aa");
}

#[test]
fn foreground_escapes() {
    assert_eq!(Color::Red.fg().as_str(), "\u{1b}[31m");
    assert_eq!(Color::Black.fg().as_str(), "\u{1b}[30m");
    assert_eq!(Color::BrightWhite.fg().as_str(), "\u{1b}[97m");
    assert_eq!(Color::Reset.fg().as_str(), "\u{1b}[39;49m");
    assert_eq!(Color::Color256(69).fg().as_str(), "\u{1b}[38;5;69m");
    assert_eq!(Color::TrueColor(1, 22, 255).fg().as_str(), "\u{1b}[38;2;1;22;255m");
}

#[test]
fn background_escapes() {
    assert_eq!(Color::Red.bg().as_str(), "\u{1b}[41m");
    assert_eq!(Color::BrightBlack.bg().as_str(), "\u{1b}[100m");
    assert_eq!(Color::Reset.bg().as_str(), "\u{1b}[39;49m");
    assert_eq!(Color::Color256(7).bg().as_str(), "\u{1b}[48;5;7m");
    assert_eq!(Color::TrueColor(0, 0, 0).bg().as_str(), "\u{1b}[48;2;0;0;0m");
}

#[test]
fn colorize_str_wraps_with_reset() {
    assert_eq!("abc".with_fg(Color::Red).as_str(), "\u{1b}[31mabc\u{1b}[39;49m");
    assert_eq!("abc".with_bg(Color::Blue).as_str(), "\u{1b}[44mabc\u{1b}[39;49m");
}

#[test]
fn colorize_string_prefixes_only() {
    assert_eq!(String::from("abc").with_fg(Color::Red).as_str(), "\u{1b}[31mabc");
    assert_eq!(String::from("abc").with_bg(Color::Blue).as_str(), "\u{1b}[44mabc");
}
