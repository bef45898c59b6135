use statusbar::nmcli::{parse_active_network, parse_inet_address, ActiveNetwork};
use statusbar::text::{
    chars_of, fields_of, is_whitespace, lines_of, parse_i32, span_is, span_starts_with, trim_span,
};

fn text_of(chars: &[char], span: (usize, usize)) -> String {
    chars[span.0..span.1].iter().collect()
}

/// Texts that mix letters, separators, line ends, signs, digits and spaces.
fn samples() -> Vec<String> {
    let alphabet = ['a', ':', '\n', '\r', ' ', '1', '-', '+', '\t', 'é', '\u{3000}', '0'];
    let mut texts = vec![String::new()];
    let mut seed: u32 = 7;
    for round in 0..4000 {
        seed = seed.wrapping_mul(1664525).wrapping_add(1013904223);
        let len = (seed >> 24) as usize % 9;
        let mut text = String::new();
        let mut pick = seed;
        for _ in 0..len {
            pick = pick.wrapping_mul(1103515245).wrapping_add(12345);
            text.push(alphabet[(pick >> 16) as usize % alphabet.len()]);
        }
        if round % 3 == 0 {
            text.push('\n');
        }
        texts.push(text);
    }
    texts
}

/// The active network as the standard library's tools find it.
fn active_by_std(listing: &str) -> Option<ActiveNetwork> {
    for line in listing.lines() {
        let parts: Vec<&str> = line.split(':').collect();
        if parts.len() >= 4 && parts[0] == "yes" {
            return Some(ActiveNetwork {
                ssid: parts[1].to_string(),
                signal: parts[2].parse().unwrap_or(0),
                device: parts[3].to_string(),
            });
        }
    }
    None
}

/// The address as the standard library's tools find it.
fn inet_by_std(listing: &str) -> Option<String> {
    let mut found = None;
    for line in listing.lines() {
        if line.trim().starts_with("inet ") {
            if let Some(ip) = line.trim().split_whitespace().nth(1) {
                found = Some(ip.to_string());
            }
        }
    }
    found
}

#[test]
fn chars_are_the_characters_of_the_text() {
    for text in samples() {
        assert_eq!(chars_of(&text), text.chars().collect::<Vec<char>>());
    }
    assert_eq!(chars_of("aé\u{1f600}"), vec!['a', 'é', '\u{1f600}']);
}

#[test]
fn whitespace_is_what_the_standard_library_calls_whitespace() {
    for code in 0..=0x10ffffu32 {
        if let Some(c) = char::from_u32(code) {
            assert_eq!(is_whitespace(c), c.is_whitespace(), "U+{:04X}", code);
        }
    }
}

#[test]
fn lines_are_the_lines_of_the_standard_library() {
    for text in samples() {
        let chars = chars_of(&text);
        let found: Vec<String> = lines_of(&chars).iter().map(|span| text_of(&chars, *span)).collect();
        let expected: Vec<String> = text.lines().map(|line| line.to_string()).collect();
        assert_eq!(found, expected, "{:?}", text);
    }
    let chars = chars_of("one\r\ntwo\n\nthree\r");
    let found: Vec<String> = lines_of(&chars).iter().map(|span| text_of(&chars, *span)).collect();
    assert_eq!(found, vec!["one", "two", "", "three\r"]);
}

#[test]
fn fields_are_the_split_of_the_standard_library() {
    for text in samples() {
        let chars = chars_of(&text);
        let found: Vec<String> =
            fields_of(&chars, 0, chars.len(), ':').iter().map(|span| text_of(&chars, *span)).collect();
        let expected: Vec<String> = text.split(':').map(|field| field.to_string()).collect();
        assert_eq!(found, expected, "{:?}", text);
    }
    let chars = chars_of("::a:");
    assert_eq!(fields_of(&chars, 0, 4, ':'), vec![(0, 0), (1, 1), (2, 3), (4, 4)]);
    assert_eq!(fields_of(&chars, 1, 3, ':'), vec![(1, 1), (2, 3)]);
    assert_eq!(fields_of(&chars, 2, 2, ':'), vec![(2, 2)]);
}

#[test]
fn trimming_is_the_trim_of_the_standard_library() {
    for text in samples() {
        let chars = chars_of(&text);
        let span = trim_span(&chars, 0, chars.len());
        assert_eq!(text_of(&chars, span), text.trim(), "{:?}", text);
    }
    let chars = chars_of(" \t x y \u{a0}");
    assert_eq!(trim_span(&chars, 0, chars.len()), (3, 6));
    assert_eq!(trim_span(&chars, 0, 3), (0, 0));
    assert_eq!(trim_span(&chars, 4, 5), (4, 4));
}

#[test]
fn numbers_are_read_as_the_standard_library_reads_them() {
    let mut texts = samples();
    for text in [
        "0", "-0", "+0", "7", "42", "-42", "+42", "007", "2147483647", "2147483648", "-2147483648",
        "-2147483649", "00000000000000000000000000002147483647", "99999999999999999999999999",
        "-99999999999999999999999999", "", "-", "+", "--1", "+-1", "1-", " 1", "1 ", "1_000", "0x10",
        "١٢", "1a", "a1", "4294967296", "-00000000000000000002147483648", "21474836470",
    ] {
        texts.push(text.to_string());
    }
    for text in texts {
        let chars = chars_of(&text);
        assert_eq!(parse_i32(&chars, 0, chars.len()), text.parse::<i32>().ok(), "{:?}", text);
    }
    let chars = chars_of("ab-12cd");
    assert_eq!(parse_i32(&chars, 2, 5), Some(-12));
    assert_eq!(parse_i32(&chars, 3, 5), Some(12));
    assert_eq!(parse_i32(&chars, 3, 6), None);
    assert_eq!(parse_i32(&chars, 3, 3), None);
}

#[test]
fn spans_are_compared_with_words() {
    let chars = chars_of("say yes");
    let yes = chars_of("yes");
    assert!(span_is(&chars, 4, 7, &yes));
    assert!(!span_is(&chars, 3, 7, &yes));
    assert!(!span_is(&chars, 4, 6, &yes));
    assert!(!span_is(&chars, 0, 3, &yes));
    assert!(span_is(&chars, 2, 2, &Vec::new()));
    assert!(span_starts_with(&chars, 4, 7, &yes));
    assert!(span_starts_with(&chars, 0, 7, &chars_of("say")));
    assert!(!span_starts_with(&chars, 0, 2, &chars_of("say")));
    assert!(!span_starts_with(&chars, 1, 7, &chars_of("say")));
    assert!(span_starts_with(&chars, 1, 1, &Vec::new()));
}

#[test]
fn active_network_is_the_first_line_marked_yes() {
    let listing = "no:Cafe:40:wlan0\nyes:Home:72:wlan1\nyes:Other:10:wlan2\n";
    assert_eq!(
        parse_active_network(listing),
        Some(ActiveNetwork { ssid: "Home".to_string(), signal: 72, device: "wlan1".to_string() })
    );
}

#[test]
fn active_network_needs_four_fields_and_yes() {
    assert_eq!(parse_active_network(""), None);
    assert_eq!(parse_active_network("no:Home:72:wlan0"), None);
    assert_eq!(parse_active_network("yes:Home:72"), None);
    assert_eq!(parse_active_network("Yes:Home:72:wlan0"), None);
    assert_eq!(parse_active_network(" yes:Home:72:wlan0"), None);
    assert_eq!(
        parse_active_network("yes:::"),
        Some(ActiveNetwork { ssid: String::new(), signal: 0, device: String::new() })
    );
}

#[test]
fn active_network_takes_fields_as_they_stand() {
    assert_eq!(
        parse_active_network("yes:My\\:Net:strong:wl:an0:more\r\n"),
        Some(ActiveNetwork { ssid: "My\\".to_string(), signal: 0, device: "strong".to_string() })
    );
    assert_eq!(
        parse_active_network("yes:Café ☕:-5:wlp3s0"),
        Some(ActiveNetwork { ssid: "Café ☕".to_string(), signal: -5, device: "wlp3s0".to_string() })
    );
    assert_eq!(
        parse_active_network("yes:a:2147483648:b").map(|found| found.signal),
        Some(0)
    );
    assert_eq!(parse_active_network("yes:a: 7:b").map(|found| found.signal), Some(0));
    assert_eq!(parse_active_network("yes:a:+7:b").map(|found| found.signal), Some(7));
}

#[test]
fn active_network_agrees_with_the_standard_library() {
    let mut texts = samples();
    for (i, text) in samples().into_iter().enumerate() {
        texts.push(format!("yes:{}", text));
        texts.push(format!("no:x:1:y\nyes:n{}:{}:d\n{}", i, i as i64 * 7919 - 40000, text));
        texts.push(format!("{}\nyes:{}", text, text));
    }
    for text in texts {
        assert_eq!(parse_active_network(&text), active_by_std(&text), "{:?}", text);
    }
}

#[test]
fn inet_address_is_the_second_word_of_an_inet_line() {
    let listing = "3: wlan0: <BROADCAST,MULTICAST,UP,LOWER_UP> mtu 1500 qdisc noqueue state UP\n    \
                   inet 192.168.1.20/24 brd 192.168.1.255 scope global dynamic wlan0\n       \
                   valid_lft 86000sec preferred_lft 86000sec\n";
    assert_eq!(parse_inet_address(listing), Some("192.168.1.20/24".to_string()));
}

#[test]
fn inet_address_is_taken_from_the_last_inet_line() {
    let listing = "inet 10.0.0.1/8 scope\n  inet6 fe80::1/64\n\tinet   10.0.0.2/8\t\n  inetx 1\n";
    assert_eq!(parse_inet_address(listing), Some("10.0.0.2/8".to_string()));
}

#[test]
fn inet_address_needs_the_word_and_a_blank() {
    assert_eq!(parse_inet_address(""), None);
    assert_eq!(parse_inet_address("inet"), None);
    assert_eq!(parse_inet_address("inet \n"), None);
    assert_eq!(parse_inet_address("  inet   \r\n"), None);
    assert_eq!(parse_inet_address("inet\t10.0.0.1"), None);
    assert_eq!(parse_inet_address("inet6 ::1"), None);
    assert_eq!(parse_inet_address("xinet 10.0.0.1"), None);
    assert_eq!(parse_inet_address("inet 1"), Some("1".to_string()));
    assert_eq!(parse_inet_address("\u{3000}inet \u{a0}é\u{2003}x"), Some("é".to_string()));
}

#[test]
fn inet_address_agrees_with_the_standard_library() {
    let mut texts = samples();
    for text in samples() {
        texts.push(format!("inet {}", text));
        texts.push(format!(" \tinet  {}\n{}", text, text));
        texts.push(format!("{}inet {}", text, text));
    }
    for text in texts {
        assert_eq!(parse_inet_address(&text), inet_by_std(&text), "{:?}", text);
    }
}
