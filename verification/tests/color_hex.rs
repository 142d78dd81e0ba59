use oyo_core::color::{ansi_color_for_name, color_to_rgb, parse_ansi_name, resolve_color, resolve_color_or, Color, Rgb};
use std::collections::HashMap;
use oyo_core::color::parse_hex;

#[test]
fn test_parse_hex() {
    let rgb = parse_hex("#2ecc71").unwrap();
    assert_eq!(rgb.r, 46);
    assert_eq!(rgb.g, 204);
    assert_eq!(rgb.b, 113);

    let rgb = parse_hex("e74c3c").unwrap();
    assert_eq!(rgb.r, 231);
    assert_eq!(rgb.g, 76);
    assert_eq!(rgb.b, 60);
}

#[test]
fn parse_hex_trims_and_refuses_signs() {
    let rgb = parse_hex("  ##FFa001  ").unwrap();
    assert_eq!((rgb.r, rgb.g, rgb.b), (255, 160, 1));
    assert_eq!(parse_hex("#FFa0+1").unwrap_err(), "invalid hex color: bad blue component in 'FFa0+1'");
    assert_eq!(parse_hex("#+1+2+3").unwrap_err(), "invalid hex color: bad red component in '+1+2+3'");
}

#[test]
fn parse_hex_wrong_length_error() {
    assert_eq!(
        parse_hex("#12345").unwrap_err(),
        "invalid hex color: expected 6 characters, got 5"
    );
    assert_eq!(
        parse_hex("").unwrap_err(),
        "invalid hex color: expected 6 characters, got 0"
    );
}

#[test]
fn parse_hex_component_errors() {
    assert_eq!(
        parse_hex("zz0000").unwrap_err(),
        "invalid hex color: bad red component in 'zz0000'"
    );
    assert_eq!(
        parse_hex("00zz00").unwrap_err(),
        "invalid hex color: bad green component in '00zz00'"
    );
    assert_eq!(
        parse_hex("#0000-1").unwrap_err(),
        "invalid hex color: bad blue component in '0000-1'"
    );
}

#[test]
fn test_parse_ansi_name() {
    assert_eq!(parse_ansi_name("red"), Some(Color::Red));
    assert_eq!(parse_ansi_name("dark_gray"), Some(Color::DarkGray));
    assert_eq!(parse_ansi_name("darkgray"), Some(Color::DarkGray));
    assert_eq!(parse_ansi_name("dark-gray"), Some(Color::DarkGray));
    assert_eq!(parse_ansi_name("transparent"), Some(Color::Reset));
    assert_eq!(parse_ansi_name("unknown"), None);
}

#[test]
fn test_resolve_color() {
    let mut defs = HashMap::new();
    defs.insert("oyo14".to_string(), "#A3BE8C".to_string());

    // Def reference
    assert!(matches!(resolve_color("oyo14", &defs), Some(Color::Rgb(163, 190, 140))));

    // Hex
    assert!(matches!(resolve_color("#ff0000", &defs), Some(Color::Rgb(255, 0, 0))));

    // ANSI
    assert_eq!(resolve_color("cyan", &defs), Some(Color::Cyan));

    // Default/reset for terminal palette
    assert_eq!(resolve_color("default", &defs), Some(Color::Reset));
    assert_eq!(resolve_color("reset", &defs), Some(Color::Reset));
    assert_eq!(resolve_color("transparent", &defs), Some(Color::Reset));

    // Unknown
    assert_eq!(resolve_color("notacolor", &defs), None);
}

#[test]
fn ansi_names_ignore_case_and_dashes() {
    assert_eq!(parse_ansi_name("Light-Blue"), Some(Color::LightBlue));
    assert_eq!(parse_ansi_name("GREY"), Some(Color::Gray));
    assert_eq!(parse_ansi_name(" red"), None);
    assert_eq!(ansi_color_for_name("dark_grey"), Some(Color::DarkGray));
    assert_eq!(ansi_color_for_name("Red"), None);
}

#[test]
fn resolving_trims_and_falls_back() {
    let mut defs = HashMap::new();
    defs.insert("bad".to_string(), "#12".to_string());
    assert_eq!(resolve_color("  #00ff10 ", &defs), Some(Color::Rgb(0, 255, 16)));
    assert_eq!(resolve_color("bad", &defs), None);
    assert_eq!(resolve_color("#xyzxyz", &defs), None);
    assert_eq!(resolve_color_or("nothing", &defs, Color::Indexed(7)), Color::Indexed(7));
    assert_eq!(resolve_color_or("white", &defs, Color::Black), Color::White);
    assert_eq!(color_to_rgb(Color::Rgb(1, 2, 3)), Some(Rgb { r: 1, g: 2, b: 3 }));
    assert_eq!(color_to_rgb(Color::Cyan), None);
}
