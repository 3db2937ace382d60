use pebble::mailto::{
    is_mailto_url, mailto_urls_from_args, mailto_urls_from_deep_link_payload, mailto_urls_from_payload_readings,
    record_mailto_urls, take_pending_mailto_urls, unique_mailto_urls,
};
use pebble::text::{is_space_char, trim, trim_start};

fn strings(values: &[&str]) -> Vec<String> {
    values.iter().map(|s| s.to_string()).collect()
}

#[test]
fn mailto_links_are_recognised_whatever_the_case_and_leading_space() {
    assert!(is_mailto_url("mailto:alice@example.com"));
    assert!(is_mailto_url("  MAILTO:alice@example.com"));
    assert!(is_mailto_url("\tMailTo:"));
    assert!(!is_mailto_url("mailto"));
    assert!(!is_mailto_url("https://example.com"));
    assert!(!is_mailto_url(""));
    assert!(!is_mailto_url("x mailto:alice@example.com"));
}

#[test]
fn links_are_trimmed_filtered_and_kept_once_in_order() {
    let urls = unique_mailto_urls(strings(&[
        " mailto:b@example.com ",
        "https://example.com",
        "mailto:a@example.com",
        "mailto:b@example.com",
        "--flag",
    ]));
    assert_eq!(urls, strings(&["mailto:b@example.com", "mailto:a@example.com"]));
    assert!(unique_mailto_urls(Vec::new()).is_empty());
}

#[test]
fn command_line_arguments_yield_their_links() {
    let args = strings(&["/usr/bin/pebble", "mailto:a@example.com", "mailto:a@example.com"]);
    assert_eq!(mailto_urls_from_args(&args), strings(&["mailto:a@example.com"]));
}

#[test]
fn a_deep_link_payload_may_be_an_array_a_string_or_bare_text() {
    assert_eq!(
        mailto_urls_from_deep_link_payload(r#"["mailto:a@example.com","https://x","mailto:b@example.com"]"#),
        strings(&["mailto:a@example.com", "mailto:b@example.com"])
    );
    assert_eq!(mailto_urls_from_deep_link_payload(r#""mailto:c@example.com""#), strings(&["mailto:c@example.com"]));
    assert_eq!(mailto_urls_from_deep_link_payload(" mailto:d@example.com "), strings(&["mailto:d@example.com"]));
    assert!(mailto_urls_from_deep_link_payload("[1, 2]").is_empty());
    assert_eq!(
        mailto_urls_from_payload_readings(None, Some("mailto:e@example.com".to_string()), "ignored"),
        strings(&["mailto:e@example.com"])
    );
    assert_eq!(
        mailto_urls_from_payload_readings(None, None, "mailto:f@example.com"),
        strings(&["mailto:f@example.com"])
    );
}

#[test]
fn recorded_links_are_announced_once() {
    let mut pending = strings(&["mailto:a@example.com"]);
    let announced = record_mailto_urls(
        &mut pending,
        strings(&["mailto:a@example.com", " mailto:b@example.com", "mailto:b@example.com", "nope"]),
    );
    assert_eq!(announced, strings(&["mailto:b@example.com"]));
    assert_eq!(pending, strings(&["mailto:a@example.com", "mailto:b@example.com"]));
    assert!(record_mailto_urls(&mut pending, strings(&["mailto:b@example.com"])).is_empty());
    let taken = take_pending_mailto_urls(&mut pending);
    assert_eq!(taken, strings(&["mailto:a@example.com", "mailto:b@example.com"]));
    assert!(pending.is_empty());
}

#[test]
fn trimming_follows_unicode_whitespace() {
    assert_eq!(trim("\u{3000} a b \u{2029}\n"), "a b");
    assert_eq!(trim("   "), "");
    assert_eq!(trim_start("  x  "), "x  ");
    for c in ['\t', '\n', ' ', '\u{85}', '\u{a0}', '\u{1680}', '\u{2000}', '\u{200a}', '\u{202f}', '\u{205f}', '\u{3000}'] {
        assert!(is_space_char(c), "{c:?}");
        assert_eq!(is_space_char(c), c.is_whitespace());
    }
    for c in ['a', '\u{200b}', '\u{feff}', '|'] {
        assert_eq!(is_space_char(c), c.is_whitespace());
    }
}

#[test]
fn keeping_the_links_again_changes_nothing() {
    let urls = unique_mailto_urls(strings(&[
        "\u{3000}MAILTO:x@example.com\n",
        "mailto:x@example.com",
        "MAILTO:x@example.com",
        "mailto:",
        "notmailto:y",
    ]));
    assert_eq!(urls, strings(&["MAILTO:x@example.com", "mailto:x@example.com", "mailto:"]));
    for url in &urls {
        assert_eq!(url.trim(), url);
        assert!(url.to_ascii_lowercase().starts_with("mailto:"));
    }
    assert_eq!(unique_mailto_urls(urls.clone()), urls);
}
