use spark_garden::form::{clean_field, hex, parse_form, percent_decode, url_decode};

#[test]
fn hexadecimal_digits() {
    assert_eq!(hex(b'0'), Some(0));
    assert_eq!(hex(b'9'), Some(9));
    assert_eq!(hex(b'a'), Some(10));
    assert_eq!(hex(b'f'), Some(15));
    assert_eq!(hex(b'A'), Some(10));
    assert_eq!(hex(b'F'), Some(15));
    for byte in 0..=255u8 {
        assert_eq!(hex(byte), (byte as char).to_digit(16).map(|d| d as u8));
    }
}

#[test]
fn plus_and_percent_are_decoded() {
    assert_eq!(url_decode("a+b%20c"), "a b c");
    assert_eq!(url_decode("%23ffcf5a"), "#ffcf5a");
    assert_eq!(url_decode("%C3%A9t%c3%a9"), "\u{e9}t\u{e9}");
    assert_eq!(url_decode("na\u{ef}ve"), "na\u{ef}ve");
}

#[test]
fn broken_escapes_are_left_out() {
    assert_eq!(url_decode("a%zzb"), "ab");
    assert_eq!(url_decode("a%4"), "a");
    assert_eq!(url_decode("a%"), "a");
    assert_eq!(url_decode("%4zx%41"), "xA");
    assert_eq!(percent_decode("%00%ff+"), [0, 255, 32]);
}

#[test]
fn bytes_that_are_not_text_are_replaced() {
    assert_eq!(url_decode("x%ffy"), "x\u{fffd}y");
    assert_eq!(url_decode("%e2%82"), "\u{fffd}");
}

#[test]
fn every_byte_survives_percent_encoding() {
    let encoded: String = (0..=255u8).map(|byte| format!("%{byte:02X}")).collect();
    let expected: Vec<u8> = (0..=255u8).collect();
    assert_eq!(percent_decode(&encoded), expected);
}

#[test]
fn forms_are_read() {
    let form = parse_form("mood=soft&text=hello+there&color=%23f7a8b8&empty=&flag");
    assert_eq!(form.get("mood").map(String::as_str), Some("soft"));
    assert_eq!(form.get("text").map(String::as_str), Some("hello there"));
    assert_eq!(form.get("color").map(String::as_str), Some("#f7a8b8"));
    assert_eq!(form.get("empty").map(String::as_str), Some(""));
    assert_eq!(form.get("flag").map(String::as_str), Some(""));
    assert_eq!(form.get("missing"), None);
    assert_eq!(form.len(), 5);
}

#[test]
fn the_last_value_of_a_name_counts() {
    let form = parse_form("a=1&a=2&=nameless&&a=3=4");
    assert_eq!(form.get("a").map(String::as_str), Some("3=4"));
    assert_eq!(form.len(), 1);
    assert!(parse_form("").is_empty());
}

#[test]
fn fields_are_cleaned() {
    assert_eq!(clean_field("  a\u{1}b\tc\r\nd  ", 140), "abc\nd");
    assert_eq!(clean_field("abcdef", 3), "abc");
    assert_eq!(clean_field("\u{e9}\u{e9}\u{e9}", 2), "\u{e9}\u{e9}");
    assert_eq!(clean_field("abc", 0), "");
    assert_eq!(clean_field("\u{1} a", 10), " a");
    assert_eq!(clean_field("\u{1}\u{2}abc", 2), "ab");
}

#[test]
fn joined_forms_are_one_form() {
    let form = parse_form("text=one&color=red&text=%74%77%6F");
    assert_eq!(form.get("text").map(String::as_str), Some("two"));
    assert_eq!(form.get("color").map(String::as_str), Some("red"));
}

#[test]
fn every_way_of_writing_a_byte_is_read() {
    let text = "be kind & 100% na\u{ef}ve + a=b";
    for encoded in [
        "be+kind+%26+100%25+na%C3%AFve+%2B+a%3Db",
        "be%20kind%20%26%20100%25%20na%c3%afve%20%2b%20a=b",
        "%62e kind+%26 100%25 na\u{ef}ve %2B+%61%3d%62",
    ] {
        assert_eq!(url_decode(encoded), text);
        let form = parse_form(&format!("te%78t={encoded}"));
        assert_eq!(form.get("text").map(String::as_str), Some(text));
        assert_eq!(form.len(), 1);
    }
}
