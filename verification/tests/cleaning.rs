use paramspider::app::hardcoded_extensions;
use paramspider::url_clean::{clean_url, clean_urls, has_extension, parses_as_url, replace_query_values};

fn strings(items: &[&str]) -> Vec<String> {
    items.iter().map(|s| s.to_string()).collect()
}

#[test]
fn clean_url_drops_default_http_port() {
    assert_eq!(clean_url("http://example.com:80/a?b=1"), "http://example.com/a?b=1");
}

#[test]
fn clean_url_drops_default_https_port() {
    assert_eq!(clean_url("https://example.com:443/"), "https://example.com/");
}

#[test]
fn clean_url_keeps_other_ports() {
    assert_eq!(clean_url("http://example.com:8080/a"), "http://example.com:8080/a");
}

#[test]
fn clean_url_reserializes() {
    assert_eq!(clean_url("HTTP://Example.COM"), "http://example.com/");
}

#[test]
fn clean_url_keeps_text_that_does_not_parse() {
    assert_eq!(clean_url("not a url"), "not a url");
    assert_eq!(clean_url(""), "");
}

#[test]
fn has_extension_matches_listed_extension_case_insensitively() {
    let exts = hardcoded_extensions();
    assert!(has_extension("https://example.com/img/Photo.JPG", &exts));
    assert!(has_extension("https://example.com/app.min.js?v=3", &exts));
    assert!(has_extension("https://example.com/font.woff2", &exts));
}

#[test]
fn has_extension_rejects_other_paths() {
    let exts = hardcoded_extensions();
    assert!(!has_extension("https://example.com/index.php?id=1", &exts));
    assert!(!has_extension("https://example.com/a/b", &exts));
    assert!(!has_extension("https://example.com/", &exts));
    assert!(!has_extension("https://example.com/jpg", &exts));
}

#[test]
fn has_extension_ignores_leading_dot_of_file_name() {
    let exts = vec![".txt"];
    assert!(!has_extension("https://example.com/.txt", &exts));
    assert!(has_extension("https://example.com/a.txt", &exts));
}

#[test]
fn has_extension_is_false_for_text_that_does_not_parse() {
    let exts = hardcoded_extensions();
    assert!(!has_extension("logo.png", &exts));
}

#[test]
fn has_extension_looks_at_last_segment_only() {
    let exts = hardcoded_extensions();
    assert!(!has_extension("https://example.com/files.pdf/view", &exts));
}

#[test]
fn replace_query_values_keeps_each_name_once() {
    assert_eq!(
        replace_query_values("https://example.com/page?a=1&b=2&a=3", "FUZZ"),
        "https://example.com/page?a=FUZZ&b=FUZZ"
    );
}

#[test]
fn replace_query_values_drops_an_empty_query() {
    assert_eq!(replace_query_values("https://example.com/x?", "FUZZ"), "https://example.com/x");
    assert_eq!(replace_query_values("https://example.com/x", "FUZZ"), "https://example.com/x");
}

#[test]
fn replace_query_values_form_encodes_the_placeholder() {
    assert_eq!(
        replace_query_values("https://example.com/?q=1", "\"><h1>reflection</h1>"),
        "https://example.com/?q=%22%3E%3Ch1%3Ereflection%3C%2Fh1%3E"
    );
}

#[test]
fn replace_query_values_decodes_then_encodes_names() {
    assert_eq!(
        replace_query_values("https://example.com/?a%20b=1&a+b=2", "X"),
        "https://example.com/?a+b=X"
    );
}

#[test]
fn replace_query_values_keeps_the_fragment() {
    assert_eq!(
        replace_query_values("https://example.com/p?x=1#top", "FUZZ"),
        "https://example.com/p?x=FUZZ#top"
    );
}

#[test]
fn clean_urls_filters_normalizes_and_deduplicates() {
    let urls = strings(&[
        "https://example.com/page?a=1&b=2&a=3",
        "https://example.com/logo.png",
        "https://example.com/page?b=9&a=8",
        "junk",
        "https://example.com:443/page?a=5&b=6",
        "junk",
    ]);
    let exts = hardcoded_extensions();
    let cleaned = clean_urls(&urls, &exts, "FUZZ");
    assert_eq!(
        cleaned,
        strings(&[
            "https://example.com/page?a=FUZZ&b=FUZZ",
            "https://example.com/page?b=FUZZ&a=FUZZ",
            "junk",
        ])
    );
}

#[test]
fn clean_urls_of_nothing_is_nothing() {
    let exts = hardcoded_extensions();
    assert!(clean_urls(&[], &exts, "FUZZ").is_empty());
}

#[test]
fn clean_urls_depends_on_the_set_of_inputs_only() {
    let exts = hardcoded_extensions();
    let a = strings(&["https://a.com/?x=1", "https://b.com/", "https://a.com/?x=2"]);
    let b = strings(&["https://b.com/", "https://a.com/?x=2", "https://b.com/", "https://a.com/?x=1"]);
    let mut ra = clean_urls(&a, &exts, "P");
    let mut rb = clean_urls(&b, &exts, "P");
    ra.sort();
    rb.sort();
    assert_eq!(ra, rb);
    assert_eq!(ra, strings(&["https://a.com/?x=P", "https://b.com/"]));
}

#[test]
fn clean_urls_never_returns_a_duplicate() {
    let exts = hardcoded_extensions();
    let urls = strings(&[
        "http://x.com:80/?a=1",
        "http://x.com/?a=2",
        "http://x.com/?a=3&a=4",
    ]);
    assert_eq!(clean_urls(&urls, &exts, "FUZZ"), strings(&["http://x.com/?a=FUZZ"]));
}

#[test]
fn parses_as_url_tells_urls_from_other_text() {
    assert!(parses_as_url("https://example.com/a?b=1"));
    assert!(!parses_as_url("foo.js?x=1"));
    assert!(!parses_as_url(""));
}
