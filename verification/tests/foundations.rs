//! Texts, paths, network addresses, sorting and maps.

use llamesh::net::{hex_digit_char, Endpoint, IpAddress};
use llamesh::paths::{components, join_path, render_path, split};
use llamesh::sort::{sort_numbers, sort_texts};
use llamesh::string_map::StringMap;
use llamesh::text::{
    among, chars_at, chars_of, contains, find, find_char, is_white_space, not_after, parse_u64,
    push_chars, push_decimal, same, starts_with, text_of, to_ascii_lowercase, to_decimal, trim,
    trim_trailing,
};
use std::path::{Component, Path};

#[test]
fn white_space_is_that_of_unicode() {
    for n in 0..=0x10ffffu32 {
        if let Some(c) = char::from_u32(n) {
            assert_eq!(is_white_space(c), c.is_whitespace(), "{n:x}");
        }
    }
    for s in ["", " ", " a b\u{2003}\n", "\u{85}x", "abc"] {
        assert_eq!(trim(s), s.trim());
    }
}

#[test]
fn numbers_are_read_as_the_standard_library_reads_them() {
    for s in [
        "",
        "0",
        "+7",
        "-7",
        "+",
        "007",
        "18446744073709551615",
        "18446744073709551616",
        "99999999999999999999999",
        "1 ",
        "1_000",
        "\u{0663}",
    ] {
        assert_eq!(parse_u64(s), s.parse::<u64>().ok(), "{s}");
    }
    for n in [0, 9, 10, 12345, u64::MAX] {
        assert_eq!(to_decimal(n), n.to_string());
        assert_eq!(parse_u64(&to_decimal(n)), Some(n));
    }
    let mut out = String::from("n=");
    push_decimal(&mut out, 42);
    assert_eq!(out, "n=42");
}

#[test]
fn texts_are_searched_and_cut() {
    for (s, p) in [("abcab", "ab"), ("abc", ""), ("", "a"), ("aab", "ab"), ("é€x", "€")] {
        assert_eq!(contains(s, p), s.contains(p));
        assert_eq!(starts_with(s, p), s.starts_with(p));
        assert_eq!(same(s, p), s == p);
        assert_eq!(not_after(s, p), s <= p);
        assert_eq!(not_after(p, s), p <= s);
    }
    let v = chars_of("x-y-z");
    assert_eq!(find(&v, &chars_of("-")), Some(1));
    assert_eq!(find(&v, &chars_of("q")), None);
    assert_eq!(find_char(&v, '-', 2), 3);
    assert_eq!(find_char(&v, 'q', 0), 5);
    assert!(chars_at(&v, &chars_of("y-"), 2));
    assert!(!chars_at(&v, &chars_of("z-"), 4));
    assert_eq!(text_of(&v, 1, 3), "-y");
    let mut out = String::new();
    push_chars(&mut out, &v, 0, 2);
    assert_eq!(out, "x-");
    assert!(among(&['a', 'b'], 'b') && !among(&[], 'b'));
    assert_eq!(trim_trailing("a//", &['/']), "a");
    assert_eq!(trim_trailing("//", &['/']), "");
    assert_eq!(to_ascii_lowercase("AbÉ"), "AbÉ".to_ascii_lowercase());
    assert!(not_after("\u{ffff}", "\u{10000}"));
}

#[test]
fn paths_follow_the_rules_of_unix() {
    for (base, rest) in [
        ("/a", "b"),
        ("/a/", "b"),
        ("", "b"),
        ("a", "/b"),
        ("a", ""),
        ("/", "b/c"),
    ] {
        assert_eq!(join_path(base, rest), Path::new(base).join(rest).to_str().unwrap());
    }
    for path in [
        "/a//b/./c/", "a/b", "./a", ".", "", "/", "../x/..", "a/./b", "a//",
    ] {
        let ours = components(path);
        let theirs: Vec<String> = Path::new(path)
            .components()
            .filter(|c| !matches!(c, Component::RootDir))
            .map(|c| c.as_os_str().to_str().unwrap().to_string())
            .filter(|c| c != "." || !path.is_empty())
            .collect();
        let kept: Vec<String> = theirs.iter().filter(|c| *c != ".").cloned().collect();
        let ours_kept: Vec<String> = ours.iter().filter(|c| *c != ".").cloned().collect();
        assert_eq!(ours_kept, kept, "{path}");
    }
    let parts = vec!["a".to_string(), "b".to_string()];
    assert_eq!(render_path(true, &parts, 2), "/a/b");
    assert_eq!(render_path(false, &parts, 1), "a");
    assert_eq!(render_path(true, &parts, 0), "/");
    assert_eq!(split("a,,b", ','), vec!["a", "", "b"]);
    assert_eq!(split("", ','), vec![""]);
}

fn v4(a: u8, b: u8, c: u8, d: u8) -> IpAddress {
    IpAddress::V4(u32::from_be_bytes([a, b, c, d]))
}

#[test]
fn endpoints_are_written_like_socket_addresses() {
    let text = |ip: IpAddress, port: u16| Endpoint { ip, port }.to_text();
    assert_eq!(text(v4(10, 0, 255, 1), 80), "10.0.255.1:80");
    for (groups, expected) in [
        ([0, 0, 0, 0, 0, 0, 0, 0], "[::]:1"),
        ([0, 0, 0, 0, 0, 0, 0, 1], "[::1]:1"),
        ([0x2001, 0xdb8, 0, 0, 0, 0, 0, 1], "[2001:db8::1]:1"),
        ([0x2001, 0, 0, 1, 0, 0, 0, 1], "[2001:0:0:1::1]:1"),
        ([1, 0, 0, 2, 0, 0, 3, 4], "[1::2:0:0:3:4]:1"),
        ([1, 0, 2, 3, 4, 5, 6, 7], "[1:0:2:3:4:5:6:7]:1"),
        ([1, 2, 3, 4, 5, 6, 7, 0], "[1:2:3:4:5:6:7:0]:1"),
        ([1, 2, 3, 4, 5, 6, 0, 0], "[1:2:3:4:5:6::]:1"),
        ([0xabcd, 0xef01, 0x10, 0x100, 5, 6, 7, 8], "[abcd:ef01:10:100:5:6:7:8]:1"),
        ([0, 0, 0, 0, 0, 0xffff, 0xc000, 0x201], "[::ffff:192.0.2.1]:1"),
    ] {
        let value = groups
            .iter()
            .fold(0u128, |acc, g: &i32| (acc << 16) | *g as u128);
        assert_eq!(text(IpAddress::V6(value), 1), expected);
    }
    assert_eq!(hex_digit_char(9), '9');
    assert_eq!(hex_digit_char(15), 'f');
}

#[test]
fn addresses_are_classified() {
    let mapped = |v: u32| IpAddress::V6(0xffff_0000_0000 | v as u128);
    assert_eq!(mapped(0x0a000001).to_canonical(), v4(10, 0, 0, 1));
    assert_eq!(IpAddress::V6(1).to_canonical(), IpAddress::V6(1));
    assert!(v4(127, 9, 9, 9).is_loopback() && IpAddress::V6(1).is_loopback());
    assert!(!v4(128, 0, 0, 1).is_loopback());
    assert!(v4(0, 0, 0, 0).is_unspecified() && !v4(0, 0, 0, 1).is_unspecified());
    assert!(v4(224, 0, 0, 0).is_multicast() && v4(239, 255, 255, 255).is_multicast());
    assert!(!v4(223, 255, 255, 255).is_multicast() && !v4(240, 0, 0, 0).is_multicast());
    assert!(IpAddress::V6(0xff00u128 << 112).is_multicast());
    assert!(v4(255, 255, 255, 255).is_broadcast_v4());
    assert!(IpAddress::V6(0xfe80u128 << 112).is_link_local_v6());
    assert!(IpAddress::V6(0xfebfu128 << 112).is_link_local_v6());
    assert!(!IpAddress::V6(0xfec0u128 << 112).is_link_local_v6());
    // IPv4 comes before IPv6, and each family is ordered by its value.
    assert!(v4(255, 0, 0, 0).not_after(&IpAddress::V6(0)));
    assert!(!IpAddress::V6(0).not_after(&v4(255, 0, 0, 0)));
    assert!(v4(1, 0, 0, 0).not_after(&v4(1, 0, 0, 0)));
    assert!(!v4(2, 0, 0, 0).not_after(&v4(1, 0, 0, 0)));
}

#[test]
fn sorting_orders_everything() {
    assert_eq!(sort_numbers(&vec![3, 1, 2, 1]), vec![1, 1, 2, 3]);
    let words: Vec<String> = ["b", "a", "", "\u{10000}", "\u{ffff}", "ab"]
        .iter()
        .map(|s| s.to_string())
        .collect();
    let mut expected = words.clone();
    expected.sort();
    assert_eq!(sort_texts(words), expected);
}

#[test]
fn a_map_keeps_the_order_of_arrival() {
    let mut map: StringMap<u32> = StringMap::new();
    map.insert("b".to_string(), 1);
    map.insert("a".to_string(), 2);
    map.insert("b".to_string(), 3);
    assert_eq!(map.len(), 2);
    assert_eq!(map.entries[0], ("b".to_string(), 3));
    assert_eq!(map.find("a"), Some(1));
    *map.value_mut(1) = 9;
    assert_eq!(map.get("a"), Some(&9));
    assert_eq!(map.remove("b"), Some(3));
    assert_eq!(map.remove("b"), None);
    assert!(!map.contains_key("b"));
}
