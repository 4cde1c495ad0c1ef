use edmcoverlay::graphics_data::{Color, InvalidColor, Size};

fn rgb(c: Color) -> (u8, u8, u8) {
    (c.red, c.green, c.blue)
}

#[test]
fn named_colors_parse() {
    assert_eq!(rgb(Color::try_from("red").unwrap()), (255, 0, 0));
    assert_eq!(rgb(Color::try_from("green").unwrap()), (0, 255, 0));
    assert_eq!(rgb(Color::try_from("yellow").unwrap()), (255, 255, 0));
    assert_eq!(rgb(Color::try_from("blue").unwrap()), (0, 0, 255));
    assert_eq!(rgb(Color::try_from("black").unwrap()), (0, 0, 0));
}

#[test]
fn hex_colors_parse_in_either_case() {
    assert_eq!(rgb(Color::try_from("#00ff00").unwrap()), (0, 255, 0));
    assert_eq!(rgb(Color::try_from("#A1b2C3").unwrap()), (0xa1, 0xb2, 0xc3));
    assert_eq!(rgb(Color::try_from("#123456").unwrap()), (0x12, 0x34, 0x56));
    assert_eq!(rgb(Color::try_from("#FFFFFF").unwrap()), (255, 255, 255));
}

#[test]
fn invalid_colors_fail() {
    for s in ["", "#", "#12345", "#1234567", "123456", "#12345g", "#zzzzzz", "Red", "white", " red", "#12 456"] {
        assert_eq!(Color::try_from(s), Err(InvalidColor), "{:?}", s);
    }
    assert!(Color::try_from("#123456\n").is_err());
}

#[test]
fn serialize_is_lowercase_hex() {
    let c = Color { red: 0xab, green: 0x0c, blue: 0xff };
    assert_eq!(c.to_string(), "#ab0cff");
    assert_eq!(Color { red: 0, green: 0, blue: 0 }.to_string(), "#000000");
}

#[test]
fn parse_then_serialize_round_trips() {
    for (input, text) in [
        ("red", "#ff0000"),
        ("green", "#00ff00"),
        ("yellow", "#ffff00"),
        ("blue", "#0000ff"),
        ("black", "#000000"),
        ("#A1B2C3", "#a1b2c3"),
        ("#0f0f0f", "#0f0f0f"),
    ] {
        let c = Color::try_from(input).unwrap();
        let out = c.to_string();
        assert_eq!(out, text);
        assert_eq!(out.len(), 7);
        assert_eq!(Color::try_from(out.as_str()), Ok(c));
    }
}

#[test]
fn size_defaults_to_normal() {
    assert_eq!(Size::default(), Size::Normal);
}
