use sysfetch::color::Color;
use sysfetch::config::{Config, GroupConfig, OptionPropertyConfig, PropertyConfig, RawConfig};
use sysfetch::properties::Property;

fn plain_default() -> PropertyConfig {
    PropertyConfig {
        name_color: Color::Green,
        separator: String::from(" - "),
        separator_color: Color::White,
        value_color: Color::Yellow,
    }
}

#[test]
fn default_fallback_for_unknown_property() {
    let raw = RawConfig {
        default: plain_default(),
        groups: vec![(
            String::from("g"),
            GroupConfig {
                name_color: Some(Color::Red),
                properties: vec![String::from("other")],
                ..Default::default()
            },
        )],
        overrides: Vec::new(),
    };
    let config = Config::parse(raw);
    let got = config.get("nonexistent_property");
    assert_eq!(got, plain_default());
}

#[test]
fn override_wins_over_group() {
    let raw = RawConfig {
        default: plain_default(),
        groups: vec![(
            String::from("g"),
            GroupConfig {
                name_color: Some(Color::Red),
                properties: vec![String::from("prop")],
                ..Default::default()
            },
        )],
        overrides: vec![(
            String::from("prop"),
            OptionPropertyConfig { name_color: Some(Color::Blue), ..Default::default() },
        )],
    };
    let config = Config::parse(raw);
    assert_eq!(config.get("prop").name_color, Color::Blue);
}

#[test]
fn attributes_merge_independently() {
    let raw = RawConfig {
        default: plain_default(),
        groups: vec![(
            String::from("g"),
            GroupConfig {
                name_color: Some(Color::Red),
                properties: vec![String::from("prop")],
                ..Default::default()
            },
        )],
        overrides: vec![(
            String::from("prop"),
            OptionPropertyConfig {
                separator: Some(String::from(" = ")),
                ..Default::default()
            },
        )],
    };
    let config = Config::parse(raw);
    let got = config.get("prop");
    assert_eq!(got.name_color, Color::Red);
    assert_eq!(got.separator.as_str(), " = ");
    assert_eq!(got.separator_color, Color::White);
    assert_eq!(got.value_color, Color::Yellow);
}

#[test]
fn later_group_wins_per_attribute() {
    let raw = RawConfig {
        default: plain_default(),
        groups: vec![
            (
                String::from("first"),
                GroupConfig {
                    name_color: Some(Color::Red),
                    separator_color: Some(Color::Cyan),
                    properties: vec![String::from("prop")],
                    ..Default::default()
                },
            ),
            (
                String::from("second"),
                GroupConfig {
                    name_color: Some(Color::Blue),
                    properties: vec![String::from("prop")],
                    ..Default::default()
                },
            ),
        ],
        overrides: Vec::new(),
    };
    let config = Config::parse(raw);
    let got = config.get("prop");
    // The later group overwrites the attribute it sets; the earlier
    // group's other attribute survives.
    assert_eq!(got.name_color, Color::Blue);
    assert_eq!(got.separator_color, Color::Cyan);
}

#[test]
fn builtin_default_resolves_os() {
    let config = Config::default();
    let got = config.get("os");
    assert_eq!(got.name_color, Color::Color256(69));
    assert_eq!(got.separator.as_str(), ": ");
    assert_eq!(got.separator_color, Color::BrightWhite);
    assert_eq!(got.value_color, Color::TrueColor(255, 255, 255));
    // Properties outside the sys group fall back to the default record.
    let other = config.get("hostname");
    assert_eq!(other.name_color, Color::BrightCyan);
    assert_eq!(other.value_color, Color::BrightWhite);
}

#[test]
fn render_property_line() {
    let config = PropertyConfig {
        name_color: Color::BrightCyan,
        separator: String::from(": "),
        separator_color: Color::BrightWhite,
        value_color: Color::TrueColor(255, 255, 255),
    };
    let property = Property {
        name: String::from("OS"),
        value: String::from("Linux"),
        config,
    };
    assert_eq!(
        property.render().as_str(),
        "\u{1b}[96mOS\u{1b}[97m: \u{1b}[38;2;255;255;255mLinux\u{1b}[39;49m"
    );
}

#[test]
fn render_os_line_from_builtin_default() {
    let config = Config::default();
    let property = Property {
        name: String::from("OS"),
        value: String::from("Linux"),
        config: config.get("os"),
    };
    // Name in the sys group's palette color 69, separator in the default
    // bright white, value in the group's pure white, then a reset.
    assert_eq!(
        property.render().as_str(),
        "\u{1b}[38;5;69mOS\u{1b}[97m: \u{1b}[38;2;255;255;255mLinux\u{1b}[39;49m"
    );
}

#[test]
fn insert_merges_into_existing_entry() {
    let mut config = Config::parse(RawConfig {
        default: plain_default(),
        groups: Vec::new(),
        overrides: vec![(
            String::from("prop"),
            OptionPropertyConfig { name_color: Some(Color::Red), ..Default::default() },
        )],
    });
    config.insert(
        &String::from("prop"),
        &OptionPropertyConfig { separator: Some(String::from("> ")), ..Default::default() },
    );
    let got = config.get("prop");
    assert_eq!(got.name_color, Color::Red);
    assert_eq!(got.separator.as_str(), "> ");
}
