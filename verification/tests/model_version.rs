use xxgate::codex::model_version::{advance, current, parse, update};

#[test]
fn rejects_invalid_or_older_versions_and_retains_last_success() {
    let mut version: Option<String> = None;
    assert!(!advance(&mut version, "0.99.0"));
    assert!(advance(&mut version, "0.155.1"));
    for candidate in ["0.154.0", "0.155.1", "invalid", "0.156.0-alpha.1"] {
        assert!(!advance(&mut version, candidate));
        assert_eq!(version.as_deref(), Some("0.155.1"));
    }
}

#[test]
fn stable_versions_are_strict_and_ordered_numerically() {
    assert!(parse("0.155.1") > parse("0.99.0"));
    for invalid in ["0.155.1-alpha.1", "rust-v0.155.1", "0.155", "0.01.0", "0.1.2\r\n", "+0.1.2"] {
        assert_eq!(parse(invalid), None);
    }
}

#[test]
fn the_baseline_is_current_until_a_newer_release_is_seen() {
    let mut stored: Option<String> = None;
    assert_eq!(current(&stored), "0.153.4");
    assert!(!update(&mut stored, "0.153.4"));
    assert!(update(&mut stored, "0.153.10"));
    assert_eq!(current(&stored), "0.153.10");
    assert_eq!(parse("4294967295.0.0"), Some([4294967295, 0, 0]));
    assert_eq!(parse("4294967296.0.0"), None);
}

#[test]
fn release_text_round_trips_and_only_canonical_text_is_read() {
    for (a, b, c) in [(0u32, 0u32, 0u32), (1, 2, 3), (u32::MAX, 10, 0)] {
        assert_eq!(xxgate::codex::model_version::parse(&format!("{a}.{b}.{c}")), Some([a, b, c]));
    }
    for text in ["+1.2.3", "01.2.3", "1.2.3 ", " 1.2.3", "1.2", "1.2.3.4", "4294967296.0.0"] {
        assert_eq!(xxgate::codex::model_version::parse(text), None);
    }
}
