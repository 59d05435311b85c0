//! A run: which domains are processed, what is asked of the archive for
//! each, what is kept of the answer and where it is saved, and how a list of
//! domains is read.
use vstd::prelude::*;
use vstd::string::*;
use vstd::hash_set::StringHashSet;
use crate::cli::Cli;
use crate::text::{
    contains_char, contains_seq, lemma_replace_all_absent, lowercase, replace_all, replace_str, split_whitespace, to_lowercase, trim,
    trim_str, views, words,
};
use crate::unique::{first_occurrences, push_if_new, tracks};
use crate::url_clean::{clean_urls, cleaned_entries, cleaned_entry, cleaned_url, path_extension, str_views};
use crate::weburl::{url_parses, url_path};

verus! {

/// One piece of work of a run.
pub enum Job {
    /// Fetch, clean and save the archived URLs of this domain.
    Domain(String),
    /// Read the domains listed in the file at this path, and process each.
    List(String),
}

/// The work a run does for its options: the domain first where one is
/// given, then the list where one is given.
pub open spec fn planned_jobs(cli: Cli) -> Seq<Job> {
    let first = match cli.domain {
        Some(d) => seq![Job::Domain(d)],
        None => Seq::empty(),
    };
    let second = match cli.list {
        Some(l) => seq![Job::List(l)],
        None => Seq::empty(),
    };
    first + second
}

/// Decides the work of a run: the given domain, then the given list.
pub fn run(cli: Cli) -> (jobs: Vec<Job>)
    ensures
        jobs@ == planned_jobs(cli),
{
    let ghost given = cli;
    let mut jobs: Vec<Job> = Vec::new();
    if let Some(domain) = cli.domain {
        jobs.push(Job::Domain(domain));
    }
    if let Some(list_path) = cli.list {
        jobs.push(Job::List(list_path));
    }
    assert(jobs@ =~= planned_jobs(given));
    jobs
}

/// The extensions of the static assets that cleaning drops.
pub open spec fn asset_extensions() -> Seq<&'static str> {
    seq![
        ".jpg", ".jpeg", ".png", ".gif", ".pdf", ".svg", ".json", ".css", ".js", ".webp",
        ".woff", ".woff2", ".eot", ".ttf", ".otf", ".mp4", ".txt",
    ]
}

/// The extensions of the static assets that cleaning drops.
pub fn hardcoded_extensions() -> (r: Vec<&'static str>)
    ensures
        r@ == asset_extensions(),
{
    let v = vec![
        ".jpg", ".jpeg", ".png", ".gif", ".pdf", ".svg", ".json", ".css", ".js", ".webp",
        ".woff", ".woff2", ".eot", ".ttf", ".otf", ".mp4", ".txt",
    ];
    assert(v@ =~= asset_extensions());
    v
}

/// The archive query that lists the URLs captured under `domain`, one per line.
pub open spec fn archive_query(domain: Seq<char>) -> Seq<char> {
    "https://web.archive.org/cdx/search/cdx?url="@ + domain
        + "/*&output=txt&collapse=urlkey&fl=original&page=/"@
}

/// The archive query for `domain`.
pub fn wayback_uri(domain: &str) -> (r: String)
    ensures
        r@ == archive_query(domain@),
{
    String::from_str("https://web.archive.org/cdx/search/cdx?url=").concat(domain).concat(
        "/*&output=txt&collapse=urlkey&fl=original&page=/",
    )
}

/// The file the kept URLs of `domain` are saved to.
pub open spec fn result_path(domain: Seq<char>) -> Seq<char> {
    "results/"@ + domain + ".txt"@
}

/// The file the kept URLs of `domain` are saved to.
pub fn result_file_path(domain: &str) -> (r: String)
    ensures
        r@ == result_path(domain@),
{
    String::from_str("results/").concat(domain).concat(".txt")
}

/// The URLs of `urls` that hold a `?`, in order.
pub open spec fn with_query_mark(urls: Seq<Seq<char>>) -> Seq<Seq<char>>
    decreases urls.len(),
{
    if urls.len() == 0 {
        Seq::empty()
    } else {
        let prev = with_query_mark(urls.drop_last());
        if urls.last().contains('?') {
            prev.push(urls.last())
        } else {
            prev
        }
    }
}

/// Keeps the URLs that hold a `?`, in order.
pub fn urls_with_parameters(urls: &Vec<String>) -> (r: Vec<String>)
    ensures
        views(r@) == with_query_mark(views(urls@)),
{
    let mut out: Vec<String> = Vec::new();
    for i in 0..urls.len()
        invariant
            views(out@) == with_query_mark(views(urls@).take(i as int)),
    {
        assert(views(urls@).take(i + 1).drop_last() =~= views(urls@).take(i as int));
        assert(views(urls@).take(i + 1).last() == urls@[i as int]@);
        if contains_char(urls[i].as_str(), '?') {
            let ghost before = out@;
            out.push(urls[i].clone());
            assert(views(out@) =~= views(before).push(urls@[i as int]@));
        }
    }
    assert(views(urls@).take(urls@.len() as int) =~= views(urls@));
    out
}

/// What is made of the archive's answer for one domain.
pub struct Harvest {
    /// The URLs of the answer, one per word.
    pub found: Vec<String>,
    /// The distinct cleaned URLs.
    pub cleaned: Vec<String>,
    /// The cleaned URLs that hold a query, as they are saved.
    pub with_params: Vec<String>,
}

/// Splits the archive's answer into URLs, cleans them with the asset
/// extensions and `placeholder`, and keeps those that hold a query.
pub fn harvest(response_text: &str, placeholder: &str) -> (h: Harvest)
    ensures
        views(h.found@) == words(response_text@),
        views(h.cleaned@) == first_occurrences(
            cleaned_entries(views(h.found@), str_views(asset_extensions()), placeholder@),
        ),
        views(h.with_params@) == with_query_mark(views(h.cleaned@)),
{
    let found = split_whitespace(response_text);
    let extensions = hardcoded_extensions();
    let cleaned = clean_urls(found.as_slice(), extensions.as_slice(), placeholder);
    let with_params = urls_with_parameters(&cleaned);
    Harvest { found, cleaned, with_params }
}

/// A line of a domain list as a domain: trimmed, lowercased, and with every
/// `https://` and then every `http://` removed.
pub open spec fn normalized_domain(line: Seq<char>) -> Seq<char> {
    replace_all(replace_all(lowercase(trim(line)), "https://"@, Seq::empty()), "http://"@, Seq::empty())
}

/// Reads a line of a domain list as a domain.
pub fn normalize_domain(line: &str) -> (r: String)
    ensures
        r@ == normalized_domain(line@),
{
    proof {
        reveal_strlit("https://");
        reveal_strlit("http://");
        reveal_strlit("");
        assert(""@ =~= Seq::<char>::empty());
    }
    let trimmed = trim_str(line);
    let lowered = to_lowercase(trimmed.as_str());
    let no_https = replace_str(lowered.as_str(), "https://", "");
    replace_str(no_https.as_str(), "http://", "")
}

/// The domains of the lines of a list, in order, with duplicates: each
/// non-empty normalized line.
pub open spec fn listed_domains(lines: Seq<Seq<char>>) -> Seq<Seq<char>>
    decreases lines.len(),
{
    if lines.len() == 0 {
        Seq::empty()
    } else {
        let prev = listed_domains(lines.drop_last());
        let d = normalized_domain(lines.last());
        if d.len() > 0 {
            prev.push(d)
        } else {
            prev
        }
    }
}

/// The distinct domains of the lines of a list, in order of first appearance.
pub fn collect_domains(lines: &Vec<String>) -> (r: Vec<String>)
    ensures
        views(r@) == first_occurrences(listed_domains(views(lines@))),
{
    let mut kept: Vec<String> = Vec::new();
    let mut seen = StringHashSet::new();
    assert(views(kept@) =~= first_occurrences(listed_domains(views(lines@).take(0))));
    for i in 0..lines.len()
        invariant
            views(kept@) == first_occurrences(listed_domains(views(lines@).take(i as int))),
            tracks(seen@, views(kept@)),
    {
        let ghost prev = listed_domains(views(lines@).take(i as int));
        assert(views(lines@).take(i + 1).drop_last() =~= views(lines@).take(i as int));
        assert(views(lines@).take(i + 1).last() == lines@[i as int]@);
        let domain = normalize_domain(lines[i].as_str());
        if !domain.as_str().is_empty() {
            assert(prev.push(domain@).drop_last() =~= prev);
            push_if_new(&mut kept, &mut seen, domain);
        }
    }
    assert(views(lines@).take(lines@.len() as int) =~= views(lines@));
    kept
}

/// The URLs kept for saving are exactly the given ones that hold a `?`, and
/// hold no URL twice where the given ones do not.
pub proof fn lemma_with_query_mark(urls: Seq<Seq<char>>)
    ensures
        forall|x: Seq<char>| with_query_mark(urls).contains(x) <==> urls.contains(x) && x.contains('?'),
        urls.no_duplicates() ==> with_query_mark(urls).no_duplicates(),
    decreases urls.len(),
{
    if urls.len() > 0 {
        let init = urls.drop_last();
        let prev = with_query_mark(init);
        lemma_with_query_mark(init);
        let last = urls.last();
        assert(urls[urls.len() - 1] == last);
        assert forall|x: Seq<char>| with_query_mark(urls).contains(x) <==> urls.contains(x) && x.contains('?') by {
            if urls.contains(x) && x != last {
                let k: int = choose|k: int| 0 <= k < urls.len() && urls[k] == x;
                assert(init[k] == x);
            }
            if init.contains(x) {
                let k: int = choose|k: int| 0 <= k < init.len() && init[k] == x;
                assert(urls[k] == x);
            }
            if last.contains('?') {
                assert(prev.push(last)[prev.len() as int] == last);
                if prev.push(last).contains(x) && x != last {
                    let k: int = choose|k: int| 0 <= k < prev.len() + 1 && prev.push(last)[k] == x;
                    assert(prev[k] == x);
                }
                if prev.contains(x) {
                    let k: int = choose|k: int| 0 <= k < prev.len() && prev[k] == x;
                    assert(prev.push(last)[k] == x);
                }
            }
        }
        if urls.no_duplicates() {
            assert(init.no_duplicates());
            if last.contains('?') {
                if prev.contains(last) {
                    let k: int = choose|k: int| 0 <= k < init.len() && init[k] == last;
                    assert(urls[k] == urls[urls.len() - 1]);
                }
                let r = prev.push(last);
                assert forall|i: int, j: int| 0 <= i < r.len() && 0 <= j < r.len() && i != j implies r[i] != r[j] by {
                    if i < prev.len() && j < prev.len() {
                        assert(r[i] == prev[i] && r[j] == prev[j]);
                    } else if i < prev.len() {
                        assert(r[i] == prev[i]);
                        assert(prev.contains(prev[i]));
                    } else if j < prev.len() {
                        assert(r[j] == prev[j]);
                        assert(prev.contains(prev[j]));
                    }
                }
            }
        }
    }
}

/// The URLs saved for a domain hold no URL twice, and are exactly the
/// cleaned URLs that hold a query mark.
pub proof fn lemma_saved_urls(urls: Seq<Seq<char>>, placeholder: Seq<char>)
    ensures
        with_query_mark(crate::url_clean::cleaned_list(urls, str_views(asset_extensions()), placeholder)).no_duplicates(),
        forall|x: Seq<char>|
            with_query_mark(crate::url_clean::cleaned_list(urls, str_views(asset_extensions()), placeholder)).contains(x)
                <==> crate::url_clean::cleaned_list(urls, str_views(asset_extensions()), placeholder).contains(x)
                && x.contains('?'),
{
    let c = crate::url_clean::cleaned_list(urls, str_views(asset_extensions()), placeholder);
    crate::url_clean::lemma_clean_urls_contents(urls, str_views(asset_extensions()), placeholder);
    lemma_with_query_mark(c);
}

/// The listed domains are exactly the non-empty normalized lines.
proof fn lemma_listed_domains(lines: Seq<Seq<char>>)
    ensures
        forall|x: Seq<char>|
            listed_domains(lines).contains(x) <==> x.len() > 0 && exists|i: int|
                0 <= i < lines.len() && #[trigger] normalized_domain(lines[i]) == x,
    decreases lines.len(),
{
    if lines.len() > 0 {
        let init = lines.drop_last();
        let prev = listed_domains(init);
        lemma_listed_domains(init);
        let last: int = lines.len() - 1;
        let cur = listed_domains(lines);
        assert(lines[last] == lines.last());
        assert(forall|k: int| 0 <= k < prev.len() ==> cur[k] == prev[k]);
        assert forall|x: Seq<char>|
            cur.contains(x) <==> x.len() > 0 && exists|i: int|
                0 <= i < lines.len() && #[trigger] normalized_domain(lines[i]) == x by {
            if x.len() > 0 && exists|i: int| 0 <= i < lines.len() && #[trigger] normalized_domain(lines[i]) == x {
                let i: int = choose|i: int| 0 <= i < lines.len() && #[trigger] normalized_domain(lines[i]) == x;
                if i < last {
                    assert(init[i] == lines[i]);
                    assert(normalized_domain(init[i]) == x);
                    assert(prev.contains(x));
                    let k: int = choose|k: int| 0 <= k < prev.len() && prev[k] == x;
                    assert(cur[k] == x);
                } else {
                    assert(cur[prev.len() as int] == x);
                }
            }
            if cur.contains(x) {
                let k: int = choose|k: int| 0 <= k < cur.len() && cur[k] == x;
                if k < prev.len() {
                    assert(prev[k] == x);
                    assert(prev.contains(x));
                    let i: int = choose|i: int| 0 <= i < init.len() && #[trigger] normalized_domain(init[i]) == x;
                    assert(lines[i] == init[i]);
                } else {
                    assert(normalized_domain(lines[last]) == x);
                }
            }
        }
    }
}

/// The domains collected from a list hold no domain twice, no empty domain,
/// and hold a domain exactly when some line normalizes to it; so they depend
/// on which lines the list holds, not on their order or repetition.
pub proof fn lemma_collected_domains(lines: Seq<Seq<char>>)
    ensures
        first_occurrences(listed_domains(lines)).no_duplicates(),
        forall|x: Seq<char>|
            first_occurrences(listed_domains(lines)).contains(x) <==> x.len() > 0 && exists|i: int|
                0 <= i < lines.len() && #[trigger] normalized_domain(lines[i]) == x,
{
    crate::unique::lemma_first_occurrences(listed_domains(lines));
    lemma_listed_domains(lines);
    assert forall|x: Seq<char>|
        first_occurrences(listed_domains(lines)).contains(x) <==> x.len() > 0 && exists|i: int|
            0 <= i < lines.len() && #[trigger] normalized_domain(lines[i]) == x by {
        assert(first_occurrences(listed_domains(lines)).contains(x) <==> listed_domains(lines).contains(x));
    }
}

/// Two lists that hold the same lines, in any order and any number of times,
/// give the same domains.
pub proof fn lemma_collected_domains_order_insensitive(a: Seq<Seq<char>>, b: Seq<Seq<char>>)
    requires
        forall|l: Seq<char>| a.contains(l) <==> b.contains(l),
    ensures
        forall|x: Seq<char>|
            first_occurrences(listed_domains(a)).contains(x) <==> first_occurrences(listed_domains(b)).contains(x),
{
    lemma_collected_domains(a);
    lemma_collected_domains(b);
    assert forall|x: Seq<char>|
        first_occurrences(listed_domains(a)).contains(x) implies first_occurrences(listed_domains(b)).contains(x) by {
        let i: int = choose|i: int| 0 <= i < a.len() && #[trigger] normalized_domain(a[i]) == x;
        assert(a.contains(a[i]));
        let j: int = choose|j: int| 0 <= j < b.len() && b[j] == a[i];
        assert(normalized_domain(b[j]) == x);
    }
    assert forall|x: Seq<char>|
        first_occurrences(listed_domains(b)).contains(x) implies first_occurrences(listed_domains(a)).contains(x) by {
        let i: int = choose|i: int| 0 <= i < b.len() && #[trigger] normalized_domain(b[i]) == x;
        assert(b.contains(b[i]));
        let j: int = choose|j: int| 0 <= j < a.len() && a[j] == b[i];
        assert(normalized_domain(a[j]) == x);
    }
}

/// An extension is an asset extension exactly when it is one of `.jpg`,
/// `.jpeg`, `.png`, `.gif`, `.pdf`, `.svg`, `.json`, `.css`, `.js`,
/// `.webp`, `.woff`, `.woff2`, `.eot`, `.ttf`, `.otf`, `.mp4` and `.txt`.
pub proof fn lemma_asset_extensions(e: Seq<char>)
    ensures
        str_views(asset_extensions()).contains(e) <==> {
            ||| e == ".jpg"@
            ||| e == ".jpeg"@
            ||| e == ".png"@
            ||| e == ".gif"@
            ||| e == ".pdf"@
            ||| e == ".svg"@
            ||| e == ".json"@
            ||| e == ".css"@
            ||| e == ".js"@
            ||| e == ".webp"@
            ||| e == ".woff"@
            ||| e == ".woff2"@
            ||| e == ".eot"@
            ||| e == ".ttf"@
            ||| e == ".otf"@
            ||| e == ".mp4"@
            ||| e == ".txt"@
        },
{
    let v = str_views(asset_extensions());
    assert(v.len() == 17);
    if v.contains(e) {
        let k: int = choose|k: int| 0 <= k < v.len() && v[k] == e;
        assert(v[k] == asset_extensions()[k]@);
    }
    assert(v[0] == ".jpg"@);
    assert(v[1] == ".jpeg"@);
    assert(v[2] == ".png"@);
    assert(v[3] == ".gif"@);
    assert(v[4] == ".pdf"@);
    assert(v[5] == ".svg"@);
    assert(v[6] == ".json"@);
    assert(v[7] == ".css"@);
    assert(v[8] == ".js"@);
    assert(v[9] == ".webp"@);
    assert(v[10] == ".woff"@);
    assert(v[11] == ".woff2"@);
    assert(v[12] == ".eot"@);
    assert(v[13] == ".ttf"@);
    assert(v[14] == ".otf"@);
    assert(v[15] == ".mp4"@);
    assert(v[16] == ".txt"@);
}

/// An archived URL whose cleaned form parses is dropped by the cleaning of
/// a harvest exactly when its path's extension is an asset extension; e.g.
/// every `.pdf` document is dropped and every `.php` page is kept.
pub proof fn lemma_harvest_drops_assets(u: Seq<char>, placeholder: Seq<char>)
    requires
        url_parses(cleaned_url(u)),
    ensures
        cleaned_entry(u, str_views(asset_extensions()), placeholder) is None <==> {
            let e = path_extension(url_path(cleaned_url(u)));
            ||| e == ".jpg"@
            ||| e == ".jpeg"@
            ||| e == ".png"@
            ||| e == ".gif"@
            ||| e == ".pdf"@
            ||| e == ".svg"@
            ||| e == ".json"@
            ||| e == ".css"@
            ||| e == ".js"@
            ||| e == ".webp"@
            ||| e == ".woff"@
            ||| e == ".woff2"@
            ||| e == ".eot"@
            ||| e == ".ttf"@
            ||| e == ".otf"@
            ||| e == ".mp4"@
            ||| e == ".txt"@
        },
{
    lemma_asset_extensions(path_extension(url_path(cleaned_url(u))));
}

/// A domain is read from a line through the lowercase of the trimmed line
/// alone: two lines that trim and lowercase alike (such as `Example.com` and
/// ` example.com`) give the same domain, scheme or not.
pub proof fn lemma_domain_ignores_case_and_blanks(a: Seq<char>, b: Seq<char>)
    requires
        lowercase(trim(a)) == lowercase(trim(b)),
    ensures
        normalized_domain(a) == normalized_domain(b),
{
}

/// A line whose trimmed lowercase holds no `http://` and no `https://` is
/// read as that trimmed lowercase, unchanged otherwise.
pub proof fn lemma_domain_without_scheme(line: Seq<char>)
    requires
        !contains_seq(lowercase(trim(line)), "https://"@),
        !contains_seq(lowercase(trim(line)), "http://"@),
    ensures
        normalized_domain(line) == lowercase(trim(line)),
{
    let l = lowercase(trim(line));
    lemma_replace_all_absent(l, "https://"@, Seq::empty());
    lemma_replace_all_absent(l, "http://"@, Seq::empty());
}

} // verus!
