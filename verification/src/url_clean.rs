//! Cleaning archived URLs: default ports dropped, static assets filtered out
//! by extension, every query parameter kept once with its value replaced by a
//! placeholder, and duplicates removed.
use vstd::prelude::*;
use vstd::string::*;
use vstd::hash_set::StringHashSet;
use crate::text::{chars_of, contains_seq, lowercase, occurs_at, string_of_range, to_lowercase, views};
use crate::unique::{first_occurrences, lemma_first_occurrences, push_if_new, tracks, unique_strings};
use crate::weburl::{
    append_form_pair, form_pair, parse_url, serialize_with_query, serialize_without_port,
    url_parses, url_path, url_port, url_query_names, url_scheme, url_serialization,
    url_serialization_with_query, url_serialization_without_port,
};

verus! {

/// The URL with its port removed where the port is the default one of its
/// scheme (80 for `http`, 443 for `https`), reserialized; an input that does
/// not parse as a URL stays as it is.
pub open spec fn cleaned_url(u: Seq<char>) -> Seq<char> {
    if !url_parses(u) {
        u
    } else if (url_scheme(u) == "http"@ && url_port(u) == Some(80u16)) || (url_scheme(u)
        == "https"@ && url_port(u) == Some(443u16)) {
        url_serialization_without_port(u)
    } else {
        url_serialization(u)
    }
}

/// Index of the last occurrence of `c` in `s`.
pub open spec fn last_index_of(s: Seq<char>, c: char) -> Option<int>
    decreases s.len(),
{
    if s.len() == 0 {
        None
    } else if s.last() == c {
        Some(s.len() - 1)
    } else {
        last_index_of(s.drop_last(), c)
    }
}

/// The last segment of a path: what follows its last `/`, or all of it.
pub open spec fn file_name(path: Seq<char>) -> Seq<char> {
    match last_index_of(path, '/') {
        Some(i) => path.skip(i + 1),
        None => path,
    }
}

/// The extension of a file name, from its last `.` on, when that `.` is not
/// its first character.
pub open spec fn raw_extension(name: Seq<char>) -> Option<Seq<char>> {
    match last_index_of(name, '.') {
        Some(i) => if i > 0 {
            Some(name.skip(i))
        } else {
            None
        },
        None => None,
    }
}

/// The lowercased extension of the last segment of `path`, or the empty
/// string where it has none.
pub open spec fn path_extension(path: Seq<char>) -> Seq<char> {
    match raw_extension(file_name(path)) {
        Some(e) => lowercase(e),
        None => Seq::empty(),
    }
}

/// The views of a list of string slices.
pub open spec fn str_views(v: Seq<&str>) -> Seq<Seq<char>> {
    v.map_values(|e: &str| e@)
}

/// `u` parses as a URL whose path ends in one of `extensions`.
pub open spec fn has_listed_extension(u: Seq<char>, extensions: Seq<Seq<char>>) -> bool {
    url_parses(u) && extensions.contains(path_extension(url_path(u)))
}

/// The query that lists each of `names` with `value`, joined by `&`, as a
/// form serializer writes it.
pub open spec fn encoded_query(names: Seq<Seq<char>>, value: Seq<char>) -> Seq<char>
    decreases names.len(),
{
    if names.len() == 0 {
        Seq::empty()
    } else {
        let prev = encoded_query(names.drop_last(), value);
        prev + (if prev.len() > 0 {
            seq!['&']
        } else {
            Seq::<char>::empty()
        }) + form_pair(names.last(), value)
    }
}

/// The URL `u` with its query replaced by one that holds each of its
/// parameter names once, in order of first appearance, with the value
/// `placeholder`; without a query where it has no parameter.
pub open spec fn placeholder_query_url(u: Seq<char>, placeholder: Seq<char>) -> Seq<char> {
    let q = encoded_query(first_occurrences(url_query_names(u)), placeholder);
    url_serialization_with_query(
        u,
        if q.len() == 0 {
            None
        } else {
            Some(q)
        },
    )
}

/// What cleaning makes of one archived URL: nothing where the cleaned URL has
/// a listed extension, the cleaned text where it does not parse, and else the
/// URL with its query values replaced.
pub open spec fn cleaned_entry(u: Seq<char>, extensions: Seq<Seq<char>>, placeholder: Seq<char>) -> Option<Seq<char>> {
    let c = cleaned_url(u);
    if has_listed_extension(c, extensions) {
        None
    } else if !url_parses(c) {
        Some(c)
    } else {
        Some(placeholder_query_url(c, placeholder))
    }
}

/// The cleaned entries of `urls`, in order, with duplicates.
pub open spec fn cleaned_entries(urls: Seq<Seq<char>>, extensions: Seq<Seq<char>>, placeholder: Seq<char>) -> Seq<Seq<char>>
    decreases urls.len(),
{
    if urls.len() == 0 {
        Seq::empty()
    } else {
        let prev = cleaned_entries(urls.drop_last(), extensions, placeholder);
        match cleaned_entry(urls.last(), extensions, placeholder) {
            Some(e) => prev.push(e),
            None => prev,
        }
    }
}

/// Drops the port of `url` where it is the default one of its scheme. The
/// parser never keeps such a port, so the result is the parser's
/// serialization of `url`, or `url` itself where it does not parse.
pub fn clean_url(url: &str) -> (r: String)
    ensures
        r@ == cleaned_url(url@),
        r@ == (if url_parses(url@) {
            url_serialization(url@)
        } else {
            url@
        }),
{
    match parse_url(url) {
        None => String::from_str(url),
        Some(parts) => {
            let http = String::from_str("http");
            let https = String::from_str("https");
            let default_port = match parts.port {
                Some(port) => (parts.scheme == http && port == 80) || (parts.scheme == https && port == 443),
                None => false,
            };
            if default_port {
                serialize_without_port(url)
            } else {
                parts.serialization
            }
        },
    }
}

/// Index of the last `c` in `v`.
fn last_index(v: &Vec<char>, c: char) -> (r: Option<usize>)
    ensures
        match r {
            Some(i) => i < v@.len() && last_index_of(v@, c) == Some(i as int),
            None => last_index_of(v@, c) is None,
        },
{
    let mut i: usize = v.len();
    assert(v@.take(v@.len() as int) =~= v@);
    while i > 0
        invariant
            i <= v@.len(),
            last_index_of(v@, c) == last_index_of(v@.take(i as int), c),
        decreases i,
    {
        assert(v@.take(i as int).drop_last() =~= v@.take(i - 1));
        if v[i - 1] == c {
            assert(v@.take(i as int).last() == c);
            return Some(i - 1);
        }
        i = i - 1;
    }
    None
}

/// Whether `url` parses as a URL whose path's last segment has one of
/// `extensions` (compared after lowercasing).
pub fn has_extension(url: &str, extensions: &[&str]) -> (r: bool)
    ensures
        r == has_listed_extension(url@, str_views(extensions@)),
{
    let parts = match parse_url(url) {
        Some(p) => p,
        None => return false,
    };
    let path = chars_of(parts.path.as_str());
    let name_start: usize = match last_index(&path, '/') {
        Some(i) => i + 1,
        None => 0,
    };
    let name = string_of_range(&path, name_start, path.len());
    proof {
        assert(path@.subrange(name_start as int, path@.len() as int) =~= file_name(path@));
    }
    let name_chars = chars_of(name.as_str());
    let ext = match last_index(&name_chars, '.') {
        Some(idx) => if idx > 0 {
            let raw = string_of_range(&name_chars, idx, name_chars.len());
            proof {
                assert(raw@ =~= name@.skip(idx as int));
            }
            to_lowercase(raw.as_str())
        } else {
            String::new()
        },
        None => String::new(),
    };
    assert(ext@ == path_extension(url_path(url@)));
    let mut i: usize = 0;
    while i < extensions.len()
        invariant
            i <= extensions@.len(),
            url_parses(url@),
            ext@ == path_extension(url_path(url@)),
            forall|k: int| 0 <= k < i ==> str_views(extensions@)[k] != ext@,
        decreases extensions.len() - i,
    {
        let candidate = String::from_str(extensions[i]);
        if candidate == ext {
            assert(str_views(extensions@)[i as int] == ext@);
            assert(str_views(extensions@).contains(ext@));
            return true;
        }
        i = i + 1;
    }
    false
}

/// The query listing each of `names` with `value`.
fn encode_query(names: &Vec<String>, value: &str) -> (r: String)
    ensures
        r@ == encoded_query(views(names@), value@),
{
    let mut query = String::new();
    for i in 0..names.len()
        invariant
            query@ == encoded_query(views(names@).take(i as int), value@),
    {
        assert(views(names@).take(i + 1).drop_last() =~= views(names@).take(i as int));
        assert(views(names@).take(i + 1).last() == names@[i as int]@);
        append_form_pair(&mut query, names[i].as_str(), value);
    }
    assert(views(names@).take(names@.len() as int) =~= views(names@));
    query
}

/// Replaces the query of the URL `url` by one in which each parameter name
/// appears once, in order of first appearance, with the value `placeholder`.
pub fn replace_query_values(url: &str, placeholder: &str) -> (r: String)
    requires
        url_parses(url@),
    ensures
        r@ == placeholder_query_url(url@, placeholder@),
{
    let parts = match parse_url(url) {
        Some(p) => p,
        None => return String::new(),
    };
    let names = unique_strings(&parts.query_names);
    let query = encode_query(&names, placeholder);
    if query.as_str().is_empty() {
        serialize_with_query(url, None)
    } else {
        serialize_with_query(url, Some(query.as_str()))
    }
}

/// Cleans a list of archived URLs: each URL loses a default port; a URL whose
/// path has one of `extensions` is dropped; a URL that does not parse is kept
/// as it is; every other URL keeps each query parameter name once with the
/// value `placeholder`. The result holds each distinct cleaned URL once, in
/// order of first appearance.
pub fn clean_urls(urls: &[String], extensions: &[&str], placeholder: &str) -> (r: Vec<String>)
    ensures
        views(r@) == first_occurrences(cleaned_entries(views(urls@), str_views(extensions@), placeholder@)),
{
    let ghost exts = str_views(extensions@);
    let mut kept: Vec<String> = Vec::new();
    let mut seen = StringHashSet::new();
    assert(views(kept@) =~= first_occurrences(cleaned_entries(views(urls@).take(0), exts, placeholder@)));
    for i in 0..urls.len()
        invariant
            exts == str_views(extensions@),
            views(kept@) == first_occurrences(cleaned_entries(views(urls@).take(i as int), exts, placeholder@)),
            tracks(seen@, views(kept@)),
    {
        let ghost prefix = views(urls@).take(i as int);
        assert(views(urls@).take(i + 1).drop_last() =~= prefix);
        assert(views(urls@).take(i + 1).last() == urls@[i as int]@);
        let ghost prev = cleaned_entries(prefix, exts, placeholder@);
        let cleaned = clean_url(urls[i].as_str());
        if !has_extension(cleaned.as_str(), extensions) {
            if parses_as_url(cleaned.as_str()) {
                let entry = replace_query_values(cleaned.as_str(), placeholder);
                assert(cleaned_entry(urls@[i as int]@, exts, placeholder@) == Some(entry@));
                assert(prev.push(entry@).drop_last() =~= prev);
                push_if_new(&mut kept, &mut seen, entry);
            } else {
                assert(cleaned_entry(urls@[i as int]@, exts, placeholder@) == Some(cleaned@));
                assert(prev.push(cleaned@).drop_last() =~= prev);
                push_if_new(&mut kept, &mut seen, cleaned);
            }
        }
    }
    assert(views(urls@).take(urls@.len() as int) =~= views(urls@));
    kept
}

/// Whether `url` parses as a URL (what `replace_query_values` requires).
pub fn parses_as_url(url: &str) -> (r: bool)
    ensures
        r == url_parses(url@),
{
    parse_url(url).is_some()
}

/// The URLs that `clean_urls` returns for `urls`.
pub open spec fn cleaned_list(urls: Seq<Seq<char>>, extensions: Seq<Seq<char>>, placeholder: Seq<char>) -> Seq<Seq<char>> {
    first_occurrences(cleaned_entries(urls, extensions, placeholder))
}

/// The cleaned entries are exactly what cleaning makes of some input URL.
pub proof fn lemma_cleaned_entries_members(urls: Seq<Seq<char>>, extensions: Seq<Seq<char>>, placeholder: Seq<char>)
    ensures
        forall|x: Seq<char>|
            cleaned_entries(urls, extensions, placeholder).contains(x) <==> exists|i: int|
                0 <= i < urls.len() && #[trigger] cleaned_entry(urls[i], extensions, placeholder) == Some(x),
    decreases urls.len(),
{
    if urls.len() > 0 {
        let init = urls.drop_last();
        let prev = cleaned_entries(init, extensions, placeholder);
        lemma_cleaned_entries_members(init, extensions, placeholder);
        let last: int = urls.len() - 1;
        let cur = cleaned_entries(urls, extensions, placeholder);
        assert(urls[last] == urls.last());
        assert(urls.drop_last() == init);
        assert(forall|k: int| 0 <= k < prev.len() ==> cur[k] == prev[k]);
        assert(cur.len() >= prev.len());
        assert forall|x: Seq<char>|
            cur.contains(x) <==> exists|i: int|
                0 <= i < urls.len() && #[trigger] cleaned_entry(urls[i], extensions, placeholder) == Some(x) by {
            if exists|i: int| 0 <= i < urls.len() && #[trigger] cleaned_entry(urls[i], extensions, placeholder) == Some(x) {
                let i: int = choose|i: int| 0 <= i < urls.len() && #[trigger] cleaned_entry(urls[i], extensions, placeholder) == Some(x);
                if i < last {
                    assert(init[i] == urls[i]);
                    assert(cleaned_entry(init[i], extensions, placeholder) == Some(x));
                    assert(prev.contains(x));
                    let k: int = choose|k: int| 0 <= k < prev.len() && prev[k] == x;
                    assert(cur[k] == x);
                } else {
                    assert(cur == prev.push(x));
                    assert(cur[prev.len() as int] == x);
                }
            }
            if cur.contains(x) {
                let k: int = choose|k: int| 0 <= k < cur.len() && cur[k] == x;
                if k < prev.len() {
                    assert(prev[k] == x);
                    assert(prev.contains(x));
                    let i: int = choose|i: int| 0 <= i < init.len() && #[trigger] cleaned_entry(init[i], extensions, placeholder) == Some(x);
                    assert(urls[i] == init[i]);
                } else {
                    assert(cleaned_entry(urls[last], extensions, placeholder) == Some(x));
                }
            }
        }
    }
}

/// What `clean_urls` returns holds no URL twice, and holds a URL exactly when
/// cleaning some input URL gives it: the cleaned URL where it does not parse,
/// else the URL with each query name once, valued `placeholder`; never one
/// whose cleaned form has a listed extension.
pub proof fn lemma_clean_urls_contents(urls: Seq<Seq<char>>, extensions: Seq<Seq<char>>, placeholder: Seq<char>)
    ensures
        cleaned_list(urls, extensions, placeholder).no_duplicates(),
        forall|x: Seq<char>|
            cleaned_list(urls, extensions, placeholder).contains(x) <==> exists|i: int|
                0 <= i < urls.len() && #[trigger] cleaned_entry(urls[i], extensions, placeholder) == Some(x),
        forall|i: int|
            0 <= i < urls.len() && has_listed_extension(cleaned_url(urls[i]), extensions)
                ==> #[trigger] cleaned_entry(urls[i], extensions, placeholder) is None,
{
    let entries = cleaned_entries(urls, extensions, placeholder);
    lemma_first_occurrences(entries);
    lemma_cleaned_entries_members(urls, extensions, placeholder);
    assert forall|x: Seq<char>|
        cleaned_list(urls, extensions, placeholder).contains(x) <==> exists|i: int|
            0 <= i < urls.len() && #[trigger] cleaned_entry(urls[i], extensions, placeholder) == Some(x) by {
        assert(first_occurrences(entries).contains(x) <==> entries.contains(x));
    }
}

/// Cleaning depends on which URLs are given, not on their order or on how
/// often each is given.
pub proof fn lemma_clean_urls_order_insensitive(
    a: Seq<Seq<char>>,
    b: Seq<Seq<char>>,
    extensions: Seq<Seq<char>>,
    placeholder: Seq<char>,
)
    requires
        forall|u: Seq<char>| a.contains(u) <==> b.contains(u),
    ensures
        forall|x: Seq<char>|
            cleaned_list(a, extensions, placeholder).contains(x) <==> cleaned_list(b, extensions, placeholder).contains(x),
{
    lemma_clean_urls_contents(a, extensions, placeholder);
    lemma_clean_urls_contents(b, extensions, placeholder);
    assert forall|x: Seq<char>|
        cleaned_list(a, extensions, placeholder).contains(x) implies cleaned_list(b, extensions, placeholder).contains(x) by {
        let i: int = choose|i: int| 0 <= i < a.len() && #[trigger] cleaned_entry(a[i], extensions, placeholder) == Some(x);
        assert(a.contains(a[i]));
        let j: int = choose|j: int| 0 <= j < b.len() && b[j] == a[i];
        assert(cleaned_entry(b[j], extensions, placeholder) == Some(x));
    }
    assert forall|x: Seq<char>|
        cleaned_list(b, extensions, placeholder).contains(x) implies cleaned_list(a, extensions, placeholder).contains(x) by {
        let i: int = choose|i: int| 0 <= i < b.len() && #[trigger] cleaned_entry(b[i], extensions, placeholder) == Some(x);
        assert(b.contains(b[i]));
        let j: int = choose|j: int| 0 <= j < a.len() && a[j] == b[i];
        assert(cleaned_entry(a[j], extensions, placeholder) == Some(x));
    }
}

/// The query written for a URL lists each of its parameter names exactly
/// once: the names it passes on hold no duplicate and are the URL's names.
pub proof fn lemma_query_names_once(u: Seq<char>)
    ensures
        first_occurrences(url_query_names(u)).no_duplicates(),
        forall|n: Seq<char>|
            first_occurrences(url_query_names(u)).contains(n) <==> url_query_names(u).contains(n),
{
    crate::unique::lemma_first_occurrences(url_query_names(u));
}

/// The last index of `c` in `a + b` is its last index in `a` where `b` does
/// not hold `c`.
proof fn lemma_last_index_of_append(a: Seq<char>, b: Seq<char>, c: char)
    requires
        !b.contains(c),
    ensures
        last_index_of(a + b, c) == last_index_of(a, c),
    decreases b.len(),
{
    if b.len() == 0 {
        assert(a + b =~= a);
    } else {
        assert((a + b).drop_last() =~= a + b.drop_last());
        assert((a + b).last() == b.last());
        assert(b[b.len() - 1] == b.last());
        assert forall|i: int| 0 <= i < b.drop_last().len() implies b.drop_last()[i] != c by {
            assert(b.drop_last()[i] == b[i]);
        }
        lemma_last_index_of_append(a, b.drop_last(), c);
    }
}

/// Whether a URL is recognized as an asset is decided by the whole extension
/// of its path's last segment: where the path is `dir/stem.ext`, with a
/// non-empty `stem`, no `/` after the last one and no `.` in `ext`, the URL
/// has a listed extension exactly when the list holds the lowercase of
/// `.ext` itself (an extension that merely contains a listed one, or is
/// contained in one, does not count).
pub proof fn lemma_listed_extension_is_whole_extension(
    u: Seq<char>,
    extensions: Seq<Seq<char>>,
    dir: Seq<char>,
    stem: Seq<char>,
    ext: Seq<char>,
)
    requires
        url_parses(u),
        url_path(u) == dir + seq!['/'] + stem + seq!['.'] + ext,
        stem.len() > 0,
        !stem.contains('/'),
        !ext.contains('/'),
        !ext.contains('.'),
    ensures
        has_listed_extension(u, extensions) <==> extensions.contains(lowercase(seq!['.'] + ext)),
{
    let path = url_path(u);
    let head = dir.push('/');
    let name = stem + seq!['.'] + ext;
    assert(path =~= head + name);
    assert(!name.contains('/')) by {
        if name.contains('/') {
            let k: int = choose|k: int| 0 <= k < name.len() && name[k] == '/';
            if k < stem.len() {
                assert(stem[k] == '/');
            } else if k > stem.len() {
                assert(ext[k - stem.len() - 1] == '/');
            }
        }
    }
    lemma_last_index_of_append(head, name, '/');
    assert(head.drop_last() =~= dir);
    assert(last_index_of(head, '/') == Some(dir.len() as int));
    assert(path.skip(dir.len() as int + 1) =~= name);
    assert(file_name(path) == name);
    let dotted = stem.push('.');
    assert(name =~= dotted + ext);
    lemma_last_index_of_append(dotted, ext, '.');
    assert(dotted.drop_last() =~= stem);
    assert(last_index_of(dotted, '.') == Some(stem.len() as int));
    assert(name.skip(stem.len() as int) =~= seq!['.'] + ext);
    assert(raw_extension(name) == Some(seq!['.'] + ext));
}

/// A URL whose path's last segment has no `.` after its first character has
/// no extension: it is recognized as an asset only by an empty entry of the
/// list.
pub proof fn lemma_no_extension(u: Seq<char>, extensions: Seq<Seq<char>>, dir: Seq<char>, name: Seq<char>)
    requires
        url_parses(u),
        url_path(u) == dir + seq!['/'] + name,
        !name.contains('/'),
        forall|i: int| 0 < i < name.len() ==> name[i] != '.',
    ensures
        has_listed_extension(u, extensions) <==> extensions.contains(Seq::<char>::empty()),
{
    let path = url_path(u);
    let head = dir.push('/');
    assert(path =~= head + name);
    lemma_last_index_of_append(head, name, '/');
    assert(head.drop_last() =~= dir);
    assert(path.skip(dir.len() as int + 1) =~= name);
    assert(file_name(path) == name);
    lemma_no_late_dot(name);
}

/// The last `.` of a sequence with no `.` after its first character is at
/// index 0, if there is one.
proof fn lemma_no_late_dot(name: Seq<char>)
    requires
        forall|i: int| 0 < i < name.len() ==> name[i] != '.',
    ensures
        match last_index_of(name, '.') {
            Some(i) => i == 0,
            None => true,
        },
    decreases name.len(),
{
    if name.len() > 0 {
        assert(name[name.len() - 1] == name.last());
        assert forall|i: int| 0 < i < name.drop_last().len() implies name.drop_last()[i] != '.' by {
            assert(name.drop_last()[i] == name[i]);
        }
        lemma_no_late_dot(name.drop_last());
    }
}

/// The pair of each of `names` with `value` occurs in their encoded query.
proof fn lemma_encoded_query_holds_pairs(names: Seq<Seq<char>>, value: Seq<char>)
    ensures
        forall|i: int|
            0 <= i < names.len() ==> contains_seq(encoded_query(names, value), #[trigger] form_pair(names[i], value)),
    decreases names.len(),
{
    if names.len() > 0 {
        let init = names.drop_last();
        let prev = encoded_query(init, value);
        lemma_encoded_query_holds_pairs(init, value);
        let sep = if prev.len() > 0 {
            seq!['&']
        } else {
            Seq::<char>::empty()
        };
        let last = form_pair(names.last(), value);
        let q = encoded_query(names, value);
        assert(q == prev + sep + last);
        assert forall|i: int| 0 <= i < names.len() implies contains_seq(q, #[trigger] form_pair(names[i], value)) by {
            let fp = form_pair(names[i], value);
            if i == names.len() - 1 {
                let k: int = prev.len() as int + sep.len() as int;
                assert(q.subrange(k, k + fp.len()) =~= fp);
                assert(occurs_at(q, fp, k));
            } else {
                assert(init[i] == names[i]);
                assert(contains_seq(prev, form_pair(init[i], value)));
                let k: int = choose|k: int| occurs_at(prev, fp, k);
                assert(q.subrange(k, k + fp.len()) =~= prev.subrange(k, k + fp.len()));
                assert(occurs_at(q, fp, k));
            }
        }
    }
}

/// A query as `Url::set_query` takes it: none where it is empty.
pub open spec fn optional_query(q: Seq<char>) -> Option<Seq<char>> {
    if q.len() == 0 {
        None
    } else {
        Some(q)
    }
}

/// Replacing query values keeps every parameter: the URL is reserialized
/// with a query in which the pair of each of its parameter names with the
/// placeholder occurs, and with no query where it has no parameter.
pub proof fn lemma_placeholder_query_keeps_every_name(u: Seq<char>, placeholder: Seq<char>)
    ensures
        url_query_names(u).len() == 0 ==> placeholder_query_url(u, placeholder)
            == url_serialization_with_query(u, None),
        exists|q: Seq<char>|
            {
                &&& placeholder_query_url(u, placeholder) == url_serialization_with_query(
                    u,
                    #[trigger] optional_query(q),
                )
                &&& forall|n: Seq<char>|
                    #[trigger] url_query_names(u).contains(n) ==> contains_seq(q, form_pair(n, placeholder))
            },
{
    let names = url_query_names(u);
    let unique = first_occurrences(names);
    let q = encoded_query(unique, placeholder);
    lemma_first_occurrences(names);
    lemma_encoded_query_holds_pairs(unique, placeholder);
    assert forall|n: Seq<char>| #[trigger] names.contains(n) implies contains_seq(q, form_pair(n, placeholder)) by {
        assert(unique.contains(n));
        let i: int = choose|i: int| 0 <= i < unique.len() && unique[i] == n;
        assert(contains_seq(q, form_pair(unique[i], placeholder)));
    }
    if names.len() == 0 {
        assert(unique.len() == 0);
        assert(q.len() == 0);
    }
    assert(placeholder_query_url(u, placeholder) == url_serialization_with_query(u, optional_query(q)));
}

} // verus!
