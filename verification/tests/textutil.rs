use ifshow::strutil::{
    contains_sub, is_blank, is_space, lowercase, parse_dec_u64, parse_hex_u16, parse_hex_u8,
    split_lines, split_whitespace_tokens, starts_with_str, str_eq, strip_prefix_all, trim_colons,
    trim_str, u16_hex, u32_dec, u64_dec, u8_hex2, u16_hex4,
};

#[test]
fn hex_parsing_follows_the_standard_grammar() {
    assert_eq!(parse_hex_u16("8086"), Some(0x8086));
    assert_eq!(parse_hex_u16("+1a"), Some(0x1a));
    assert_eq!(parse_hex_u16("0"), Some(0));
    assert_eq!(parse_hex_u16("ffff"), Some(0xffff));
    assert_eq!(parse_hex_u16("10000"), None);
    assert_eq!(parse_hex_u16(""), None);
    assert_eq!(parse_hex_u16("+"), None);
    assert_eq!(parse_hex_u16("12g4"), None);
    assert_eq!(parse_hex_u16(" 12"), None);
    assert_eq!(parse_hex_u8("ff"), Some(0xff));
    assert_eq!(parse_hex_u8("100"), None);
}

#[test]
fn decimal_parsing_and_overflow() {
    assert_eq!(parse_dec_u64("514425531"), Some(514425531));
    assert_eq!(parse_dec_u64("18446744073709551615"), Some(u64::MAX));
    assert_eq!(parse_dec_u64("18446744073709551616"), None);
    assert_eq!(parse_dec_u64("12a"), None);
}

#[test]
fn number_formatting() {
    assert_eq!(u8_hex2(0x0a), "0a");
    assert_eq!(u8_hex2(0xff), "ff");
    assert_eq!(u8_hex2(0), "00");
    assert_eq!(u16_hex4(0x8086), "8086");
    assert_eq!(u16_hex(0x1f), "1f");
    assert_eq!(u16_hex(0), "0");
    assert_eq!(u32_dec(0), "0");
    assert_eq!(u32_dec(1000), "1000");
    assert_eq!(u64_dec(u64::MAX), "18446744073709551615");
}

#[test]
fn string_predicates() {
    assert!(str_eq("eth0", "eth0"));
    assert!(!str_eq("eth0", "eth1"));
    assert!(contains_sub("enp3s0f1", "3s0"));
    assert!(contains_sub("anything", ""));
    assert!(!contains_sub("short", "longer than hay"));
    assert!(starts_with_str("PCI_SLOT_NAME=0000:03:00.0", "PCI_SLOT_NAME="));
    assert!(!starts_with_str("PCI", "PCI_SLOT_NAME="));
    assert!(is_blank("  \t\r\n"));
    assert!(!is_blank(" x "));
    assert!(is_space('\u{00A0}'));
    assert!(!is_space('x'));
}

#[test]
fn trimming_and_stripping() {
    assert_eq!(trim_str("  name with spaces \t"), "name with spaces");
    assert_eq!(trim_str(""), "");
    assert_eq!(trim_colons("eth0:"), "eth0");
    assert_eq!(trim_colons("lo:::"), "lo");
    assert_eq!(trim_colons("plain"), "plain");
    assert_eq!(strip_prefix_all("pci@0000:03:00.0", "pci@"), "0000:03:00.0");
    assert_eq!(strip_prefix_all("pci@pci@x", "pci@"), "x");
    assert_eq!(strip_prefix_all("usb@1", "pci@"), "usb@1");
}

#[test]
fn line_and_token_splitting() {
    let lines = split_lines("a\r\nb\nc");
    assert_eq!(lines, ["a", "b", "c"]);
    assert_eq!(split_lines("a\n"), ["a"]);
    assert_eq!(split_lines("\n"), [""]);
    assert!(split_lines("").is_empty());

    let toks = split_whitespace_tokens("  eth0: 514425531\t389000 ");
    assert_eq!(toks, ["eth0:", "514425531", "389000"]);
    assert!(split_whitespace_tokens("   ").is_empty());
}

#[test]
fn lowercase_folds_for_matching() {
    assert_eq!(lowercase("E1000E"), "e1000e");
    assert_eq!(lowercase(""), "");
    assert_eq!(lowercase("already"), "already");
}
