use hexpaint::hex::ParseError;
use hexpaint::render::{decode_prefix, find_flag, mode_from_args, render_line, render_segment, Mode};

fn painted(r: u8, g: u8, b: u8, text: &str) -> String {
    ansi_term::Colour::RGB(r, g, b).paint(text).to_string()
}

#[test]
fn line_is_painted_in_its_own_color() {
    let out = render_line("00ff00").unwrap();
    assert_eq!(out, "\u{1b}[38;2;0;255;0m00ff00\u{1b}[0m\n");
    assert_eq!(out, format!("{}\n", painted(0, 255, 0, "00ff00")));
}

#[test]
fn line_keeps_its_hashes_in_the_output() {
    let out = render_line("#1a2b3c#").unwrap();
    assert_eq!(out, "\u{1b}[38;2;26;43;60m#1a2b3c#\u{1b}[0m\n");
}

#[test]
fn empty_line_is_painted_black() {
    assert_eq!(render_line("").unwrap(), "\u{1b}[38;2;0;0;0m\u{1b}[0m\n");
}

#[test]
fn line_with_bad_digits_fails() {
    assert_eq!(render_line("hello"), Err(ParseError::InvalidDigits));
}

#[test]
fn line_too_long_fails() {
    assert_eq!(render_line("0123456"), Err(ParseError::TooLong));
}

#[test]
fn first_segment_passes_through() {
    assert_eq!(render_segment(0, b"hello ").unwrap(), "hello ");
}

#[test]
fn first_segment_is_not_parsed() {
    assert_eq!(render_segment(0, b"no color here").unwrap(), "no color here");
}

#[test]
fn find_mode_highlights_only_the_code() {
    let mut out = render_segment(0, b"hello ").unwrap();
    out.push_str(&render_segment(1, b"ff0000 world").unwrap());
    let red = "\u{1b}[38;2;255;0;0m";
    let reset = "\u{1b}[0m";
    assert_eq!(out, format!("hello {red}#{reset}{red}ff0000{reset} world"));
    assert_eq!(
        out,
        format!("hello {}{} world", painted(255, 0, 0, "#"), painted(255, 0, 0, "ff0000"))
    );
}

#[test]
fn segment_of_exactly_six_digits() {
    assert_eq!(
        render_segment(3, b"0000ff").unwrap(),
        format!("{}{}", painted(0, 0, 255, "#"), painted(0, 0, 255, "0000ff"))
    );
}

#[test]
fn short_segment_is_plain_text() {
    assert_eq!(render_segment(1, b"abc").unwrap(), "#abc");
    assert_eq!(render_segment(2, b"").unwrap(), "#");
}

#[test]
fn segment_with_bad_code_fails() {
    assert_eq!(render_segment(1, b"zzzzzz rest"), Err(ParseError::InvalidDigits));
}

#[test]
fn segment_drops_invalid_utf8_tail() {
    assert_eq!(render_segment(0, b"ab\xffcd").unwrap(), "ab");
    assert_eq!(decode_prefix(b"caf\xc3\xa9\xc3"), "café");
    assert_eq!(decode_prefix(b"\xff"), "");
}

#[test]
fn segment_keeps_multibyte_text_after_the_code() {
    assert_eq!(
        render_segment(1, "00ff00 grün".as_bytes()).unwrap(),
        format!("{}{} grün", painted(0, 255, 0, "#"), painted(0, 255, 0, "00ff00"))
    );
}

#[test]
fn find_flags() {
    assert!(find_flag("-f"));
    assert!(find_flag("--find"));
    assert!(!find_flag("-F"));
    assert!(!find_flag("--fin"));
    assert!(!find_flag("find"));
    assert!(!find_flag(""));
}

#[test]
fn mode_comes_from_any_argument() {
    let args = |v: &[&str]| v.iter().map(|s| s.to_string()).collect::<Vec<String>>();
    assert_eq!(mode_from_args(&args(&[])), Mode::Line);
    assert_eq!(mode_from_args(&args(&["prog"])), Mode::Line);
    assert_eq!(mode_from_args(&args(&["prog", "-f"])), Mode::Find);
    assert_eq!(mode_from_args(&args(&["prog", "x", "--find", "y"])), Mode::Find);
    assert_eq!(mode_from_args(&args(&["prog", "-x"])), Mode::Line);
}
