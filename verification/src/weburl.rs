//! What the library reads of a parsed URL, and the calls into the `url` crate
//! that parse, reserialize and form-encode.
//!
//! The `url` crate's WHATWG parser and serializer take pages to state, so the
//! results of these calls are named below and every clause about them goes
//! through the names.
use vstd::prelude::*;

verus! {

/// Whether `url::Url::parse` accepts `input`.
pub uninterp spec fn url_parses(input: Seq<char>) -> bool;

/// `Url::scheme` of the URL that `url::Url::parse` makes of `input`.
pub uninterp spec fn url_scheme(input: Seq<char>) -> Seq<char>;

/// `Url::port` of the URL that `url::Url::parse` makes of `input`.
pub uninterp spec fn url_port(input: Seq<char>) -> Option<u16>;

/// `Url::path` of the URL that `url::Url::parse` makes of `input`.
pub uninterp spec fn url_path(input: Seq<char>) -> Seq<char>;

/// The serialization (`Display`) of the URL that `url::Url::parse` makes of `input`.
pub uninterp spec fn url_serialization(input: Seq<char>) -> Seq<char>;

/// The names of `Url::query_pairs` of the URL that `url::Url::parse` makes of
/// `input`, in the order in which the query holds them.
pub uninterp spec fn url_query_names(input: Seq<char>) -> Seq<Seq<char>>;

/// The serialization of the URL that `url::Url::parse` makes of `input`, after
/// `Url::set_port(None)`.
pub uninterp spec fn url_serialization_without_port(input: Seq<char>) -> Seq<char>;

/// The serialization of the URL that `url::Url::parse` makes of `input`, after
/// `Url::set_query(query)`.
pub uninterp spec fn url_serialization_with_query(input: Seq<char>, query: Option<Seq<char>>) -> Seq<char>;

/// The text that `form_urlencoded::Serializer::append_pair` appends for one
/// pair after the `&` separator: the encoded name, `=`, the encoded value.
pub uninterp spec fn form_pair(name: Seq<char>, value: Seq<char>) -> Seq<char>;

/// What the cleaning logic reads of a parsed URL, as plain values.
pub struct UrlParts {
    pub scheme: String,
    pub port: Option<u16>,
    pub path: String,
    pub serialization: String,
    pub query_names: Vec<String>,
}

/// Parses `input` with `url::Url::parse` and reads `scheme`, `port`, `path`,
/// the serialization and the names of `query_pairs` of the result.
/// Claimed: `None` exactly when the parser refuses `input`; otherwise each
/// field is the named result of the parser on `input`, and, as the crate
/// documents for `Url::port` and its parser does, the port is never the
/// default one of the scheme (80 for `http`, 443 for `https`).
#[verifier::external_body]
pub(crate) fn parse_url(input: &str) -> (r: Option<UrlParts>)
    ensures
        r is Some <==> url_parses(input@),
        r matches Some(p) ==> {
            &&& p.scheme@ == url_scheme(input@)
            &&& p.port == url_port(input@)
            &&& p.path@ == url_path(input@)
            &&& p.serialization@ == url_serialization(input@)
            &&& p.query_names@.map_values(|n: String| n@) == url_query_names(input@)
            &&& url_scheme(input@) == "http"@ ==> url_port(input@) != Some(80u16)
            &&& url_scheme(input@) == "https"@ ==> url_port(input@) != Some(443u16)
        },
{
    match url::Url::parse(input) {
        Ok(u) => Some(UrlParts {
            scheme: u.scheme().to_string(),
            port: u.port(),
            path: u.path().to_string(),
            serialization: u.to_string(),
            query_names: u.query_pairs().map(|(name, _)| name.to_string()).collect(),
        }),
        Err(_) => None,
    }
}

/// Parses `input` with `url::Url::parse`, calls `Url::set_port(None)` (whose
/// error is ignored) and serializes. Claimed: the result is the named
/// serialization for `input`.
#[verifier::external_body]
pub(crate) fn serialize_without_port(input: &str) -> (r: String)
    requires
        url_parses(input@),
    ensures
        r@ == url_serialization_without_port(input@),
{
    match url::Url::parse(input) {
        Ok(mut u) => {
            let _ = u.set_port(None);
            u.to_string()
        },
        Err(_) => input.to_string(),
    }
}

/// Parses `input` with `url::Url::parse`, calls `Url::set_query(query)` and
/// serializes. Claimed: the result is the named serialization for `input` and
/// `query`.
#[verifier::external_body]
pub(crate) fn serialize_with_query(input: &str, query: Option<&str>) -> (r: String)
    requires
        url_parses(input@),
    ensures
        r@ == url_serialization_with_query(
            input@,
            match query {
                Some(q) => Some(q@),
                None => None,
            },
        ),
{
    match url::Url::parse(input) {
        Ok(mut u) => {
            u.set_query(query);
            u.to_string()
        },
        Err(_) => input.to_string(),
    }
}

/// Appends one name/value pair to `target` with
/// `form_urlencoded::Serializer::append_pair`, on a serializer that starts at
/// the beginning of `target`. Claimed, as the crate's source shows: a `&` is
/// appended first when `target` is not empty, then the named pair text.
#[verifier::external_body]
pub(crate) fn append_form_pair(target: &mut String, name: &str, value: &str)
    ensures
        final(target)@ == old(target)@ + (if old(target)@.len() > 0 {
            seq!['&']
        } else {
            Seq::<char>::empty()
        }) + form_pair(name@, value@),
{
    url::form_urlencoded::Serializer::new(target).append_pair(name, value);
}

} // verus!
