use recolor::color::Color;
use recolor::xresources::{decode_xresources, parse_hex};

fn c(r: u8, g: u8, b: u8) -> Color {
    Color::new(r, g, b)
}

#[test]
fn decodes_xrdb_output() {
    let text = "*.background:\t#1d2b53\n*.color0: #000000\n*.color1: #FF004D\r\n*.color2: #1d2b53\n";
    let palette = decode_xresources(text.as_bytes()).unwrap();
    assert_eq!(palette, vec![c(29, 43, 83), c(0, 0, 0), c(255, 0, 77)]);
}

#[test]
fn tab_separated_token_keeps_text_after_last_hash() {
    let text = "*.background:\t#1d2b53 x#y#00ff00";
    let palette = decode_xresources(text.as_bytes()).unwrap();
    assert_eq!(palette, vec![c(29, 43, 83), c(0, 255, 0)]);
}

#[test]
fn tokens_without_hex_field_are_skipped() {
    let palette = decode_xresources("no colors here\n# comment-less#\n".as_bytes()).unwrap();
    assert_eq!(palette, Vec::<Color>::new());
    assert_eq!(decode_xresources(b"").unwrap(), Vec::<Color>::new());
}

#[test]
fn invalid_hex_field_is_rejected() {
    assert_eq!(decode_xresources(b"*.color0: #zz0000"), None);
    assert_eq!(decode_xresources(b"*.color0: #123456789"), None);
    assert_eq!(decode_xresources(b"*.color0: #+"), None);
}

#[test]
fn high_bits_above_rgb_are_dropped() {
    assert_eq!(decode_xresources(b"#+ff102030").unwrap(), vec![c(16, 32, 48)]);
}

#[test]
fn parse_hex_reads_base_sixteen() {
    let s = b"x+1aF";
    assert_eq!(parse_hex(s, 1, 5), Some(0x1af));
    assert_eq!(parse_hex(s, 2, 5), Some(0x1af));
    assert_eq!(parse_hex(s, 0, 5), None);
    assert_eq!(parse_hex(s, 1, 1), None);
    assert_eq!(parse_hex(b"ffffffff", 0, 8), Some(u32::MAX));
    assert_eq!(parse_hex(b"100000000", 0, 9), None);
}
