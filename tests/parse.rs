use hexpaint::hex::{hex_digit, parse, ParseError, Rgb};

fn rgb(red: u8, green: u8, blue: u8) -> Rgb {
    Rgb { red, green, blue }
}

#[test]
fn test_parse() {
    assert!((0..16777215).all(|i| {
        let s = format!("#{:x}", i);
        match parse(&s) {
            Ok(Rgb { red, green, blue }) => {
                ((red as usize) << 16) + ((green as usize) << 8) + blue as usize == i
            }
            e => {
                println!("{:?}", e);
                false
            }
        }
    }))
}

#[test]
fn test_parse_padded() {
    assert!((0..1048575).all(|i| {
        let s = format!("#{:0>6x}", i);
        match parse(&s) {
            Ok(Rgb { red, green, blue }) => {
                ((red as usize) << 16) + ((green as usize) << 8) + blue as usize == i
            }
            e => {
                println!("{:?}", e);
                false
            }
        }
    }))
}

#[test]
fn padded_round_trip_reaches_the_top_value() {
    for i in [0usize, 0xabcdef, 0xfffffe, 0xffffff] {
        let s = format!("#{:0>6x}", i);
        let c = parse(&s).unwrap();
        assert_eq!(((c.red as usize) << 16) + ((c.green as usize) << 8) + c.blue as usize, i);
    }
}

#[test]
fn empty_input_is_black() {
    assert_eq!(parse(""), Ok(rgb(0, 0, 0)));
}

#[test]
fn lone_hash_is_black() {
    assert_eq!(parse("#"), Ok(rgb(0, 0, 0)));
    assert_eq!(parse("###"), Ok(rgb(0, 0, 0)));
}

#[test]
fn one_digit_is_blue() {
    assert_eq!(parse("#a"), Ok(rgb(0, 0, 0xa)));
}

#[test]
fn two_digits_are_blue() {
    assert_eq!(parse("#7f"), Ok(rgb(0, 0, 0x7f)));
}

#[test]
fn three_digits_split_green_and_blue() {
    assert_eq!(parse("#1a2"), Ok(rgb(0, 0x1, 0xa2)));
}

#[test]
fn four_digits_split_green_and_blue() {
    assert_eq!(parse("1a2b"), Ok(rgb(0, 0x1a, 0x2b)));
}

#[test]
fn five_digits_give_red_one_digit() {
    assert_eq!(parse("#12345"), Ok(rgb(0x1, 0x23, 0x45)));
}

#[test]
fn six_digits_give_all_components() {
    assert_eq!(parse("#1a2b3c"), Ok(rgb(0x1a, 0x2b, 0x3c)));
}

#[test]
fn trailing_hashes_are_stripped() {
    assert_eq!(parse("##ff8000##"), Ok(rgb(0xff, 0x80, 0x00)));
}

#[test]
fn uppercase_digits_are_accepted() {
    assert_eq!(parse("#ABCDEF"), Ok(rgb(0xab, 0xcd, 0xef)));
}

#[test]
fn seven_digits_are_too_long() {
    assert_eq!(parse("#1a2b3c4"), Err(ParseError::TooLong));
}

#[test]
fn length_is_checked_before_digits() {
    assert_eq!(parse("#zzzzzzz"), Err(ParseError::TooLong));
}

#[test]
fn non_hex_digits_are_rejected() {
    assert_eq!(parse("#zzzzzz"), Err(ParseError::InvalidDigits));
}

#[test]
fn sign_is_not_a_digit() {
    assert_eq!(parse("+a"), Err(ParseError::InvalidDigits));
}

#[test]
fn inner_hash_is_not_a_digit() {
    assert_eq!(parse("#12#34"), Err(ParseError::InvalidDigits));
}

#[test]
fn non_ascii_is_rejected() {
    assert_eq!(parse("#é1"), Err(ParseError::InvalidDigits));
}

#[test]
fn hex_digit_values() {
    assert_eq!(hex_digit(b'0'), Some(0));
    assert_eq!(hex_digit(b'9'), Some(9));
    assert_eq!(hex_digit(b'a'), Some(10));
    assert_eq!(hex_digit(b'F'), Some(15));
    assert_eq!(hex_digit(b'g'), None);
    assert_eq!(hex_digit(b'#'), None);
}
