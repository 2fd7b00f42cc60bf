use ferrux_canvas::color::color::RGBA_SYNTAX;
use ferrux_canvas::color::palette;
use ferrux_canvas::color::{Color, ColorBuilder, ColorError};

fn assert_send<T: Send>() {}

fn assert_sync<T: Sync>() {}

#[test]
fn invalid_rgba_parsing() {
    // Short
    assert!(Color::from_rgba("0a2B3c4").is_err());
    // Wrong char
    assert!(Color::from_rgba("0Z2B3c4d").is_err());
}

#[test]
fn color_error_test_send() {
    assert_send::<ColorError>();
}

#[test]
fn color_error_test_sync() {
    assert_sync::<ColorError>();
}

#[test]
fn rgba_parsing_reads_each_pair() {
    let color = Color::from_rgba("0a2B3c4d");
    assert_eq!(color, Ok(Color { r: 10, g: 43, b: 60, a: 77 }));
}

#[test]
fn rgba_parsing_round_trips_to_bytes() {
    let color = Color::from_rgba("FF7f5001").unwrap();
    assert_eq!(color.as_u8(), [0xff, 0x7f, 0x50, 0x01]);
    let zero = Color::from_rgba("00000000").unwrap();
    assert_eq!(zero.as_u8(), [0, 0, 0, 0]);
}

#[test]
fn rgba_parsing_rejects_malformed_input() {
    for bad in ["", "0a2B3c4", "0a2B3c4d0", "0a2B3c4d00", "#0a2B3c4", "0Z2B3c4d", "0a2B3c4g", " 0a2B3c4", "0a2B3c4é"] {
        match Color::from_rgba(bad) {
            Err(ColorError::InvalidSyntax(syntax)) => assert_eq!(syntax, "hhhhhhhh"),
            Ok(c) => panic!("{bad:?} was read as {c:?}"),
        }
    }
}

#[test]
fn color_error_message_shows_the_syntax() {
    let error = ColorError::InvalidSyntax(RGBA_SYNTAX);
    assert_eq!(error.message(), "The color syntax is invalid. It should be. hhhhhhhh");
}

#[test]
fn builder_defaults_to_opaque_white() {
    assert_eq!(ColorBuilder::new().build(), palette::white());
}

#[test]
fn builder_sets_each_channel() {
    let coral = ColorBuilder::new().with_red(255).with_green(127).with_blue(80).build();
    assert_eq!(coral, Color::from_rgba("ff7f50ff").unwrap());
    let faint = ColorBuilder::new().with_red(1).with_green(2).with_blue(3).with_alpha(4).build();
    assert_eq!(faint, Color { r: 1, g: 2, b: 3, a: 4 });
}

#[test]
fn palette_colors() {
    assert_eq!(palette::white().as_u8(), [255, 255, 255, 255]);
    assert_eq!(palette::black().as_u8(), [0, 0, 0, 255]);
    assert_eq!(palette::red().as_u8(), [255, 0, 0, 255]);
    assert_eq!(palette::green().as_u8(), [0, 255, 0, 255]);
    assert_eq!(palette::blue().as_u8(), [0, 0, 255, 255]);
}
