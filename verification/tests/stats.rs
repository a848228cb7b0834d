use vampire::stats::{escape_label_value, AppStats, StatsSnapshot};
use vampire::text::{
    eq_ignore_ascii_case, find_text, parse_unsigned, split_once, split_parts, starts_with,
    strip_prefix, strip_suffix, to_decimal, trim,
};
use vampire::{UPSTREAM_CARGO_DOWNLOAD, UPSTREAM_GITHUB, UPSTREAM_NPM, UPSTREAM_PYPI_SIMPLE};

#[test]
fn counters_are_rendered_in_order() {
    let mut stats = AppStats::new();
    stats.record_artifact_fetch(UPSTREAM_NPM);
    stats.record_artifact_fetch(UPSTREAM_CARGO_DOWNLOAD);
    stats.record_artifact_fetch(UPSTREAM_NPM);
    stats.record_metadata_fetch(UPSTREAM_PYPI_SIMPLE);
    stats.record_artifact_join("a\"\\\n");
    stats.record_git_forward(UPSTREAM_GITHUB);
    stats.record_npm_search_request();
    stats.record_npm_audit_request();
    stats.record_npm_audit_request();
    let page = stats.render_prometheus();
    assert_eq!(
        page,
        "# HELP vampire_artifact_fetches_total Number of upstream artifact GETs.\n\
         # TYPE vampire_artifact_fetches_total counter\n\
         vampire_artifact_fetches_total{upstream=\"cargo_download\"} 1\n\
         vampire_artifact_fetches_total{upstream=\"npm\"} 2\n\
         # HELP vampire_metadata_fetches_total Number of upstream metadata GETs.\n\
         # TYPE vampire_metadata_fetches_total counter\n\
         vampire_metadata_fetches_total{upstream=\"pypi_simple\"} 1\n\
         # HELP vampire_artifact_joins_total Number of requests that joined an in-flight artifact fetch.\n\
         # TYPE vampire_artifact_joins_total counter\n\
         vampire_artifact_joins_total{upstream=\"a\\\"\\\\\\n\"} 1\n\
         # HELP vampire_git_forwards_total Number of git requests forwarded upstream.\n\
         # TYPE vampire_git_forwards_total counter\n\
         vampire_git_forwards_total{upstream=\"github\"} 1\n\
         # HELP vampire_npm_search_requests_total Number of npm search requests.\n\
         # TYPE vampire_npm_search_requests_total counter\n\
         vampire_npm_search_requests_total 1\n\
         # HELP vampire_npm_audit_requests_total Number of npm audit requests.\n\
         # TYPE vampire_npm_audit_requests_total counter\n\
         vampire_npm_audit_requests_total 2\n"
    );
    let snapshot = stats.snapshot();
    assert_eq!(snapshot.artifact_fetches.get("npm"), Some(&2));
    assert_eq!(snapshot.render_prometheus(), page);
    stats.reset();
    assert_eq!(stats.render_prometheus(), StatsSnapshot::default().render_prometheus());
    assert!(stats
        .render_prometheus()
        .contains("\nvampire_npm_search_requests_total 0\n"));
    assert_eq!(snapshot.artifact_fetches.get("npm"), Some(&2));
}

#[test]
fn label_values_are_escaped() {
    assert_eq!(escape_label_value("a\\b\"c\nd"), "a\\\\b\\\"c\\nd");
    assert_eq!(escape_label_value("é"), "é");
}

#[test]
fn numbers_are_read_as_the_standard_library_reads_them() {
    for text in [
        "", "+", "-", "0", "00", "+7", "-7", " 7", "7 ", "1x", "x", "65535", "65536", "65536x",
        "6553x", "+65536", "++1", "٣",
    ] {
        let expected = text.parse::<u16>();
        match parse_unsigned(text, 65535) {
            Ok(n) => assert_eq!(Ok(n), expected.map(u64::from), "{text}"),
            Err(error) => assert_eq!(error, expected.unwrap_err().to_string(), "{text}"),
        }
    }
    for text in ["18446744073709551615", "18446744073709551616", "18446744073709551616x"] {
        match parse_unsigned(text, u64::MAX) {
            Ok(n) => assert_eq!(Ok(n), text.parse::<u64>()),
            Err(error) => assert_eq!(error, text.parse::<u64>().unwrap_err().to_string()),
        }
    }
}

#[test]
fn white_space_is_trimmed_as_the_standard_library_does() {
    for code in 0..=0x10_ffff {
        if let Some(c) = char::from_u32(code) {
            let text = format!("{c}a{c}");
            if trim(&text) != text.trim() {
                panic!("{code:x}");
            }
            if code == 0x3100 {
                return;
            }
        }
    }
}

#[test]
fn texts_are_taken_apart() {
    assert_eq!(trim(" \u{a0}a b\u{3000}\n"), "a b");
    assert_eq!(trim(" \t"), "");
    assert_eq!(strip_prefix("abc", "ab"), Some("c"));
    assert_eq!(strip_prefix("abc", "b"), None);
    assert_eq!(strip_suffix("abc", "bc"), Some("a"));
    assert_eq!(strip_suffix("c", "bc"), None);
    assert_eq!(split_once("a=b=c", '='), Some(("a", "b=c")));
    assert_eq!(split_once("abc", '='), None);
    assert_eq!(split_parts("/a//b", '/'), ["", "a", "", "b"]);
    assert_eq!(split_parts("", '/'), [""]);
    assert_eq!(find_text("éab", "ab"), Some(1));
    assert_eq!(find_text("ab", ""), Some(0));
    assert_eq!(find_text("ab", "c"), None);
    assert!(starts_with("abc", ""));
    assert!(eq_ignore_ascii_case("ETag", "etag"));
    assert!(!eq_ignore_ascii_case("É", "é"));
    assert_eq!(to_decimal(0), "0");
    assert_eq!(to_decimal(1_234_567_890), "1234567890");
}
