use network_scanner::address::{ipv4, ipv4_bytes};
use network_scanner::device::{any_contains, ports_to_text, Device};
use network_scanner::text::{
    before, contains, decimal_text, equal_text, parse_number, split_at_each, split_lines,
    to_chars, to_text, trim,
};

fn chars(text: &str) -> Vec<char> {
    text.chars().collect()
}

fn pieces(list: Vec<&[char]>) -> Vec<String> {
    list.into_iter().map(to_text).collect()
}

#[test]
fn trimming_agrees_with_the_standard_library() {
    for text in [
        "",
        "  ",
        " a b ",
        "\u{a0}x\u{3000}",
        "\u{200b}x",
        "\t\r\n y \u{85}\u{2028}",
        "plain",
    ] {
        assert_eq!(to_text(trim(&chars(text))), text.trim());
    }
}

#[test]
fn lines_and_pieces_agree_with_the_standard_library() {
    for text in ["", "\n", "a", "a\n", "a\r\nb\r", "a\n\nb\r\r\nc", "\r\n"] {
        let expected: Vec<&str> = text.lines().collect();
        assert_eq!(pieces(split_lines(&chars(text))), expected);
    }
    for text in ["", ",", "a,b", ",a,,b,"] {
        let expected: Vec<&str> = text.split(',').collect();
        assert_eq!(pieces(split_at_each(&chars(text), ',')), expected);
    }
}

#[test]
fn numbers_agree_with_the_standard_library() {
    for text in [
        "0", "00022", "65535", "65536", "+80", "+", "", "-1", "8 0", "８", "99999999999999999999",
    ] {
        assert_eq!(
            parse_number(&chars(text), 10, 65535).map(|n| n as u16),
            text.parse::<u16>().ok(),
            "{text}"
        );
    }
    for text in ["001122", "ffffffffffffffff", "10000000000000000", "FfG", "aB9"] {
        assert_eq!(
            parse_number(&chars(text), 16, u64::MAX),
            u64::from_str_radix(text, 16).ok(),
            "{text}"
        );
    }
}

#[test]
fn decimal_numbers_are_read_back() {
    for n in [0u64, 7, 10, 65535, u64::MAX] {
        assert_eq!(decimal_text(n), n.to_string());
        assert_eq!(parse_number(&to_chars(&decimal_text(n)), 10, u64::MAX), Some(n));
    }
}

#[test]
fn order_and_search_agree_with_the_standard_library() {
    let texts = ["", "a", "ab", "b", "Zyxel", "zyxel", "é", "\u{ffff}", "\u{10000}"];
    for a in texts {
        for b in texts {
            assert_eq!(before(&chars(a), &chars(b)), a < b, "{a} {b}");
            assert_eq!(contains(&chars(a), &chars(b)), a.contains(b), "{a} {b}");
            assert_eq!(equal_text(a, b), a == b);
        }
    }
    assert!(any_contains(&vec!["one".into(), "two".into()], "wo"));
    assert!(!any_contains(&vec!["one".into(), "two".into()], "xyz"));
}

#[test]
fn bytes_make_up_an_address() {
    let ip = ipv4(192, 168, 1, 42);
    assert_eq!(ip, 0xC0A8_012A);
    assert_eq!(ipv4_bytes(ip), (192, 168, 1, 42));
}

#[test]
fn a_written_list_of_ports_is_counted() {
    for ports in [vec![], vec![22u16], vec![22, 80, 443, 8080]] {
        let device = Device {
            status: "Up".into(),
            ip_address: 1,
            mac_address: String::new(),
            vendor: String::new(),
            open_ports: ports_to_text(&ports),
        };
        assert_eq!(device.port_count(), ports.len());
    }
}

#[test]
fn letter_case_beyond_ascii_is_ignored() {
    let device = Device {
        status: "Up".into(),
        ip_address: 1,
        mac_address: String::new(),
        vendor: "ÅNGSTRÖM Ltd".into(),
        open_ports: String::new(),
    };
    assert!(device.matches("ångström", false));
    assert!(!device.matches("ÅNGSTRÖM", false));
}
