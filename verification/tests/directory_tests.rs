use mpc_net::directory::{config_lines, directory_fault, is_space, trim};
use mpc_net::{ConfigFault, Endpoint, HostAddr};

fn chars(s: &str) -> Vec<char> {
    s.chars().collect()
}

fn text(lines: &[Vec<char>]) -> Vec<String> {
    lines.iter().map(|l| l.iter().collect()).collect()
}

fn endpoint(port: u16) -> Endpoint {
    Endpoint { host: HostAddr::V4 { ip: 0x7F00_0001 }, port }
}

#[test]
fn lines_are_split_and_trimmed() {
    let lines = config_lines(&chars("127.0.0.1:8000\n  127.0.0.1:8001  \n127.0.0.1:8002"));
    assert_eq!(text(&lines), vec!["127.0.0.1:8000", "127.0.0.1:8001", "127.0.0.1:8002"]);
}

#[test]
fn blank_lines_take_no_id() {
    let lines = config_lines(&chars("\n\na:1\n   \n\t\nb:2\n\n"));
    assert_eq!(text(&lines), vec!["a:1", "b:2"]);
}

#[test]
fn carriage_returns_are_trimmed() {
    let lines = config_lines(&chars("a:1\r\n\r\nb:2\r\n"));
    assert_eq!(text(&lines), vec!["a:1", "b:2"]);
}

#[test]
fn empty_text_has_no_lines() {
    assert!(config_lines(&chars("")).is_empty());
    assert!(config_lines(&chars(" \n \n")).is_empty());
}

#[test]
fn inner_space_is_kept() {
    let lines = config_lines(&chars("  a b  "));
    assert_eq!(text(&lines), vec!["a b"]);
}

#[test]
fn trim_agrees_with_std() {
    for s in ["", " ", "x", "  x", "x  ", "\u{a0}x\u{3000}", "\t a\u{2003}b \n", "\u{200b}x"] {
        let got: String = trim(&chars(s)).iter().collect();
        assert_eq!(got, s.trim());
    }
}

#[test]
fn is_space_agrees_with_std() {
    for u in 0u32..0x3100 {
        if let Some(c) = char::from_u32(u) {
            assert_eq!(is_space(c), c.is_whitespace(), "U+{:04X}", u);
        }
    }
}

#[test]
fn first_bad_entry_is_reported() {
    let entries = vec![Some(endpoint(1)), None, Some(endpoint(3)), None];
    assert_eq!(directory_fault(&entries, 0), Some(ConfigFault::BadAddress { entry: 1 }));
    assert_eq!(directory_fault(&entries, 9), Some(ConfigFault::BadAddress { entry: 1 }));
}

#[test]
fn own_id_must_be_an_entry() {
    let entries = vec![Some(endpoint(1)), Some(endpoint(2))];
    assert_eq!(directory_fault(&entries, 2), Some(ConfigFault::OwnIdOutOfRange));
    assert_eq!(directory_fault(&entries, 1), None);
    assert_eq!(directory_fault(&entries, 0), None);
    assert_eq!(directory_fault(&Vec::new(), 0), Some(ConfigFault::OwnIdOutOfRange));
}
