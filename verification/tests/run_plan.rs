use paramspider::app::{
    collect_domains, harvest, normalize_domain, result_file_path, run, urls_with_parameters,
    wayback_uri, Job,
};
use paramspider::cli::{default_placeholder, Cli};

fn cli(domain: Option<&str>, list: Option<&str>) -> Cli {
    Cli {
        domain: domain.map(|s| s.to_string()),
        list: list.map(|s| s.to_string()),
        stream: false,
        proxy: None,
        placeholder: default_placeholder(),
    }
}

#[test]
fn default_placeholder_is_fuzz() {
    assert_eq!(default_placeholder(), "FUZZ");
}

#[test]
fn run_processes_the_domain() {
    let jobs = run(cli(Some("example.com"), None));
    assert_eq!(jobs.len(), 1);
    assert!(matches!(&jobs[0], Job::Domain(d) if d == "example.com"));
}

#[test]
fn run_processes_the_list() {
    let jobs = run(cli(None, Some("domains.txt")));
    assert_eq!(jobs.len(), 1);
    assert!(matches!(&jobs[0], Job::List(p) if p == "domains.txt"));
}

#[test]
fn run_processes_domain_then_list() {
    let jobs = run(cli(Some("a.com"), Some("l.txt")));
    assert_eq!(jobs.len(), 2);
    assert!(matches!(&jobs[0], Job::Domain(d) if d == "a.com"));
    assert!(matches!(&jobs[1], Job::List(p) if p == "l.txt"));
}

#[test]
fn run_without_input_does_nothing() {
    assert!(run(cli(None, None)).is_empty());
}

#[test]
fn wayback_uri_asks_for_archived_urls() {
    assert_eq!(
        wayback_uri("example.com"),
        "https://web.archive.org/cdx/search/cdx?url=example.com/*&output=txt&collapse=urlkey&fl=original&page=/"
    );
}

#[test]
fn result_file_path_is_under_results() {
    assert_eq!(result_file_path("example.com"), "results/example.com.txt");
}

#[test]
fn normalize_domain_trims_lowercases_and_drops_schemes() {
    assert_eq!(normalize_domain("  HTTPS://Example.COM \n"), "example.com");
    assert_eq!(normalize_domain("http://a.org"), "a.org");
    assert_eq!(normalize_domain("   "), "");
}

#[test]
fn collect_domains_skips_blank_lines_and_duplicates() {
    let lines: Vec<String> = vec!["a.com", "", "https://A.com", " b.org ", "http://b.org", "  "]
        .into_iter()
        .map(|s| s.to_string())
        .collect();
    assert_eq!(collect_domains(&lines), vec!["a.com".to_string(), "b.org".to_string()]);
}

#[test]
fn urls_with_parameters_keeps_urls_with_a_query_mark() {
    let urls: Vec<String> = vec!["https://a.com/?x=1", "https://a.com/", "junk?"]
        .into_iter()
        .map(|s| s.to_string())
        .collect();
    assert_eq!(
        urls_with_parameters(&urls),
        vec!["https://a.com/?x=1".to_string(), "junk?".to_string()]
    );
}

#[test]
fn harvest_splits_cleans_and_selects() {
    let text = "https://a.com/p?x=1&y=2\nhttps://a.com/style.css\nhttps://a.com/about\nhttps://a.com/p?y=3&x=4&x=5\n";
    let h = harvest(text, "FUZZ");
    assert_eq!(h.found.len(), 4);
    assert_eq!(
        h.cleaned,
        vec![
            "https://a.com/p?x=FUZZ&y=FUZZ".to_string(),
            "https://a.com/about".to_string(),
            "https://a.com/p?y=FUZZ&x=FUZZ".to_string(),
        ]
    );
    assert_eq!(
        h.with_params,
        vec!["https://a.com/p?x=FUZZ&y=FUZZ".to_string(), "https://a.com/p?y=FUZZ&x=FUZZ".to_string()]
    );
}
