use f1_stalker::db::custom_theme::{parse_hex_color, CustomTheme};
use f1_stalker::domain::drivers::Rgb8;

#[test]
fn reads_hex_colours() {
    assert_eq!(parse_hex_color("#1a2B3c"), Some(Rgb8 { r: 26, g: 43, b: 60 }));
    assert_eq!(parse_hex_color("  #ffffff \n"), Some(Rgb8 { r: 255, g: 255, b: 255 }));
    assert_eq!(parse_hex_color("000000"), Some(Rgb8 { r: 0, g: 0, b: 0 }));
    assert_eq!(parse_hex_color("+f0000"), Some(Rgb8 { r: 15, g: 0, b: 0 }));
}

#[test]
fn refuses_malformed_hex_colours() {
    assert_eq!(parse_hex_color("#fff"), None);
    assert_eq!(parse_hex_color("#gg0000"), None);
    assert_eq!(parse_hex_color("#1234567"), None);
    assert_eq!(parse_hex_color(""), None);
}

#[test]
fn custom_theme_needs_all_three_colours() {
    let theme = CustomTheme {
        background: "#101014".into(),
        surface: "#1c1c22".into(),
        accent: "#e10600".into(),
    };
    assert_eq!(
        theme.colors(),
        Some((Rgb8 { r: 16, g: 16, b: 20 }, Rgb8 { r: 28, g: 28, b: 34 }, Rgb8 { r: 225, g: 6, b: 0 }))
    );
    let broken = CustomTheme { accent: "red".into(), ..theme };
    assert_eq!(broken.colors(), None);
}
