use keyboard_configurator::color::Rgb;
use keyboard_configurator::strmap::StrMap;
use keyboard_configurator::text::{
    hex_digit_char, hex_value_of, parse_i32, push_decimal, split_text, str_eq, text_after_first,
};

#[test]
fn rgb_to_string_is_six_lower_hex_digits() {
    assert_eq!(Rgb::new(0xfb, 0xb8, 0x6c).to_string(), "fbb86c");
    assert_eq!(Rgb::new(0, 0, 0).to_string(), "000000");
    assert_eq!(Rgb::new(255, 16, 1).to_string(), "ff1001");
}

#[test]
fn rgb_parse_reads_either_case() {
    assert_eq!(Rgb::parse("fbb86c"), Some(Rgb::new(0xfb, 0xb8, 0x6c)));
    assert_eq!(Rgb::parse("FBB86C"), Some(Rgb::new(0xfb, 0xb8, 0x6c)));
    assert_eq!(Rgb::parse("cccccc"), Some(Rgb { r: 0xcc, g: 0xcc, b: 0xcc }));
}

#[test]
fn rgb_parse_refuses_other_text() {
    assert_eq!(Rgb::parse(""), None);
    assert_eq!(Rgb::parse("fbb86"), None);
    assert_eq!(Rgb::parse("fbb86c0"), None);
    assert_eq!(Rgb::parse("#fbb86"), None);
    assert_eq!(Rgb::parse("gg0000"), None);
}

#[test]
fn rgb_parse_of_to_string_gives_the_color_back() {
    for &(r, g, b) in &[(0u8, 0u8, 0u8), (1, 2, 3), (0xab, 0xcd, 0xef), (255, 255, 255)] {
        let c = Rgb::new(r, g, b);
        assert_eq!(Rgb::parse(&c.to_string()), Some(c));
    }
}

#[test]
fn hex_digits() {
    assert_eq!(hex_digit_char(0), '0');
    assert_eq!(hex_digit_char(10), 'a');
    assert_eq!(hex_digit_char(15), 'f');
    assert_eq!(hex_value_of('7'), Some(7));
    assert_eq!(hex_value_of('b'), Some(11));
    assert_eq!(hex_value_of('B'), Some(11));
    assert_eq!(hex_value_of('g'), None);
}

#[test]
fn decimal_text() {
    let mut s = String::from("x");
    push_decimal(&mut s, 0);
    assert_eq!(s, "x0");
    let mut s = String::new();
    push_decimal(&mut s, 1234567890);
    assert_eq!(s, "1234567890");
    let mut s = String::new();
    push_decimal(&mut s, u64::MAX);
    assert_eq!(s, "18446744073709551615");
}

#[test]
fn parse_i32_as_std_does() {
    for text in &["0", "42", "-7", "+13", "007", "2147483647", "-2147483648", "2147483648", "-2147483649", "", "-", "+", "1a", " 1", "1 ", "--1"] {
        assert_eq!(parse_i32(text), text.parse::<i32>().ok(), "{:?}", text);
    }
}

#[test]
fn strings_compare_by_characters() {
    assert!(str_eq("abc", "abc"));
    assert!(!str_eq("abc", "abd"));
    assert!(!str_eq("abc", "ab"));
    assert!(str_eq("", ""));
}

#[test]
fn text_after_first_separator() {
    assert_eq!(text_after_first("system76/launch_1", '/'), Some("launch_1"));
    assert_eq!(text_after_first("a/b/c", '/'), Some("b/c"));
    assert_eq!(text_after_first("a/", '/'), Some(""));
    assert_eq!(text_after_first("abc", '/'), None);
    assert_eq!(text_after_first("", '/'), None);
}

#[test]
fn split_text_as_str_split() {
    for text in &["", "a", "a,b", "system76/launch_1,system76/lemp9", "a,", ",a", ",,", "é,ü"] {
        let expected: Vec<String> = text.split(',').map(str::to_string).collect();
        assert_eq!(split_text(text, ','), expected, "{:?}", text);
    }
}

#[test]
fn strmap_keeps_insertion_order_and_last_value() {
    let mut m: StrMap<u16> = StrMap::new();
    assert_eq!(m.len(), 0);
    assert!(!m.contains_key("A"));
    m.insert("A".to_string(), 4);
    m.insert("B".to_string(), 5);
    m.insert("A".to_string(), 6);
    assert_eq!(m.len(), 2);
    assert_eq!(m.get("A"), Some(&6));
    assert_eq!(m.get("B"), Some(&5));
    assert_eq!(m.get("C"), None);
    assert!(m.contains_key("B"));
    let (k0, v0) = m.entry(0);
    assert_eq!((k0.as_str(), *v0), ("A", 6));
    let (k1, v1) = m.entry(1);
    assert_eq!((k1.as_str(), *v1), ("B", 5));
}

#[test]
fn rgb_written_back_in_lower_case() {
    assert_eq!(Rgb::parse("FbB86C").unwrap().to_string(), "fbb86c");
    assert_eq!(Rgb::parse("0a0B0c").unwrap().to_string(), "0a0b0c");
}
