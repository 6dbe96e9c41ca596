use rpc_monitor::text::{decimal_text, text_contains};

#[test]
fn decimal_digits() {
    assert_eq!(decimal_text(0), "0");
    assert_eq!(decimal_text(7), "7");
    assert_eq!(decimal_text(10), "10");
    assert_eq!(decimal_text(1_700_000_000), "1700000000");
    assert_eq!(decimal_text(u64::MAX), "18446744073709551615");
}

#[test]
fn substring_search() {
    assert!(text_contains("https://alpha.node", "alpha"));
    assert!(text_contains("alpha", "alpha"));
    assert!(text_contains("alpha", ""));
    assert!(text_contains("", ""));
    assert!(!text_contains("alp", "alpha"));
    assert!(!text_contains("https://beta.node", "alpha"));
    assert!(text_contains("nœud-é", "d-é"));
    assert!(!text_contains("aab", "abb"));
}
