use image_palette_recoloring::color_list::{
    format_color, format_color_list, parse_color_list, Channel, ColorListError,
};
use image_palette_recoloring::Rgb;

fn rgb(r: u8, g: u8, b: u8) -> Rgb {
    Rgb::new(r, g, b)
}

#[test]
fn a_list_of_colors_is_read_in_order() {
    assert_eq!(
        parse_color_list(b"ff0000,00ff00,0000ff,102030"),
        Ok(vec![rgb(255, 0, 0), rgb(0, 255, 0), rgb(0, 0, 255), rgb(16, 32, 48)])
    );
    assert_eq!(parse_color_list(b"abcdef"), Ok(vec![rgb(0xab, 0xcd, 0xef)]));
}

#[test]
fn digits_are_read_in_either_case() {
    assert_eq!(parse_color_list(b"AbCdEf,ABCDEF"), Ok(vec![rgb(0xab, 0xcd, 0xef); 2]));
    assert_eq!(parse_color_list(b"09afAF"), Ok(vec![rgb(0x09, 0xaf, 0xaf)]));
}

#[test]
fn a_color_of_another_length_is_refused() {
    assert_eq!(parse_color_list(b""), Err(ColorListError::WrongLength { index: 0 }));
    assert_eq!(parse_color_list(b"ff000"), Err(ColorListError::WrongLength { index: 0 }));
    assert_eq!(parse_color_list(b"ff0000,"), Err(ColorListError::WrongLength { index: 1 }));
    assert_eq!(parse_color_list(b",ff0000"), Err(ColorListError::WrongLength { index: 0 }));
    assert_eq!(
        parse_color_list(b"ff0000,00ff00,0000ff0,123456"),
        Err(ColorListError::WrongLength { index: 2 })
    );
    assert_eq!(parse_color_list(b"ff0000,,0000ff"), Err(ColorListError::WrongLength { index: 1 }));
}

#[test]
fn bytes_beyond_ascii_are_refused() {
    // Six bytes, two of them the two bytes of one letter.
    assert_eq!(parse_color_list("ff00\u{e9}".as_bytes()), Err(ColorListError::NonAscii));
    // Seven bytes: the length is looked at first.
    assert_eq!(
        parse_color_list("ff000\u{e9}".as_bytes()),
        Err(ColorListError::WrongLength { index: 0 })
    );
}

#[test]
fn the_first_bad_component_is_named() {
    assert_eq!(
        parse_color_list(b"fg0000"),
        Err(ColorListError::InvalidComponent { index: 0, channel: Channel::Red })
    );
    assert_eq!(
        parse_color_list(b"000000,00x0zz"),
        Err(ColorListError::InvalidComponent { index: 1, channel: Channel::Green })
    );
    assert_eq!(
        parse_color_list(b"000000,000000,0000 0"),
        Err(ColorListError::InvalidComponent { index: 2, channel: Channel::Blue })
    );
}

#[test]
fn a_sign_is_no_digit() {
    assert_eq!(
        parse_color_list(b"+f0000"),
        Err(ColorListError::InvalidComponent { index: 0, channel: Channel::Red })
    );
    assert_eq!(
        parse_color_list(b"00-100"),
        Err(ColorListError::InvalidComponent { index: 0, channel: Channel::Green })
    );
}

#[test]
fn the_first_bad_color_decides() {
    assert_eq!(
        parse_color_list(b"zz0000,ff"),
        Err(ColorListError::InvalidComponent { index: 0, channel: Channel::Red })
    );
    assert_eq!(parse_color_list(b"ff,zz0000"), Err(ColorListError::WrongLength { index: 0 }));
}

#[test]
fn a_palette_is_written_in_small_digits() {
    assert_eq!(
        format_color_list(&vec![rgb(255, 0, 0), rgb(0xab, 0xcd, 0xef), rgb(1, 2, 3)]),
        b"ff0000,abcdef,010203".to_vec()
    );
    assert_eq!(format_color_list(&vec![rgb(0, 10, 160)]), b"000aa0".to_vec());
    assert_eq!(format_color_list(&vec![]), b"".to_vec());
}

#[test]
fn a_color_is_written_in_either_case() {
    assert_eq!(format_color(rgb(0xab, 0x0c, 0xf9), true), b"AB0CF9".to_vec());
    assert_eq!(format_color(rgb(0xab, 0x0c, 0xf9), false), b"ab0cf9".to_vec());
}

#[test]
fn what_is_written_is_read_back() {
    let palette: Vec<Rgb> =
        (0..=255u8).map(|v| rgb(v, v.wrapping_mul(7), 255 - v)).collect();
    assert_eq!(parse_color_list(&format_color_list(&palette)), Ok(palette.clone()));
    for color in palette {
        assert_eq!(parse_color_list(&format_color(color, true)), Ok(vec![color]));
    }
}
