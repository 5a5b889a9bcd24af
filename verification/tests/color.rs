use colony::color::{Color, ColorErrorKind};

#[test]
fn parses_and_round_trips() {
    let c: Color = "#eff1f5".parse().unwrap();
    assert_eq!(c, Color(0xeff1f5));
    assert_eq!(c.to_css_hex(), "#eff1f5");
    assert_eq!(c.to_rust_hex(), "0xeff1f5");
}

#[test]
fn rejects_malformed_colours() {
    for bad in ["eff1f5", "#eff1f", "#gggggg", "#EFF1F5"] {
        assert!(bad.parse::<Color>().is_err(), "{bad} should not parse");
    }
}

#[test]
fn each_rejection_names_its_reason() {
    assert_eq!(Color::parse("eff1f5").unwrap_err().kind, ColorErrorKind::MissingHash);
    assert_eq!(Color::parse("").unwrap_err().kind, ColorErrorKind::MissingHash);
    assert_eq!(Color::parse("#eff1f").unwrap_err().kind, ColorErrorKind::WrongLength);
    assert_eq!(Color::parse("#eff1f55").unwrap_err().kind, ColorErrorKind::WrongLength);
    assert_eq!(Color::parse("#gggggg").unwrap_err().kind, ColorErrorKind::NonHex('g'));
    assert_eq!(Color::parse("#12x4y6").unwrap_err().kind, ColorErrorKind::NonHex('x'));
    // Three two-byte characters are six bytes: the length check passes and the
    // first of them is reported as not hex.
    assert_eq!(Color::parse("#ééé").unwrap_err().kind, ColorErrorKind::NonHex('é'));
    assert_eq!(Color::parse("#EFF1F5").unwrap_err().kind, ColorErrorKind::Uppercase);
}

#[test]
fn rejection_messages_quote_the_input() {
    assert_eq!(
        Color::parse("eff1f5").unwrap_err().message(),
        "colour \"eff1f5\" must start with '#' (expected \"#rrggbb\")"
    );
    assert_eq!(
        Color::parse("#eff1f").unwrap_err().message(),
        "colour \"#eff1f\" must have exactly 6 hex digits (expected \"#rrggbb\")"
    );
    assert_eq!(
        Color::parse("#gggggg").unwrap_err().message(),
        "colour \"#gggggg\" contains a non-hex character 'g'"
    );
    assert_eq!(
        Color::parse("#EFF1F5").unwrap_err().message(),
        "colour \"#EFF1F5\" must be lowercase (write \"#eff1f5\")"
    );
}

#[test]
fn hex_forms_pad_to_six_digits() {
    assert_eq!(Color(0x000000).to_css_hex(), "#000000");
    assert_eq!(Color(0x00000a).to_css_hex(), "#00000a");
    assert_eq!(Color(0x1e66f5).to_rust_hex(), "0x1e66f5");
    assert_eq!(Color(0x1234567).to_css_hex(), "#1234567");
}

#[test]
fn css_hex_round_trips_for_every_channel_value() {
    for v in [0u32, 1, 0x0f, 0x10, 0xff, 0x1234, 0xabcdef, 0xffffff] {
        let c = Color(v);
        assert_eq!(c.to_css_hex().parse::<Color>().unwrap(), c);
    }
}

#[test]
fn rgb_splits_the_channels() {
    assert_eq!(Color(0xeff1f5).rgb(), (0xef, 0xf1, 0xf5));
    assert_eq!(Color(0x000000).rgb(), (0, 0, 0));
}
