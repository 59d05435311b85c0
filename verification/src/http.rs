//! Fetching a URL: the proxy address, the HTTP client, the choice of user
//! agent and the retry protocol. The requests and the waiting between them
//! are made by the caller, which hands back what happened.
use vstd::prelude::*;
use vstd::string::*;
use rand::seq::IndexedRandom;
use crate::text::{contains_seq, contains_str};

verus! {

/// How many requests a fetch makes at most.
pub const MAX_RETRIES: usize = 3;

/// How many seconds a fetch waits after a failed request.
pub const RETRY_DELAY_SECS: u64 = 5;

/// The proxy address as the client is configured with it: unchanged where it
/// names a scheme (holds `://`), else with `http://` in front.
pub open spec fn normalized_proxy(proxy: Seq<char>) -> Seq<char> {
    if contains_seq(proxy, "://"@) {
        proxy
    } else {
        "http://"@ + proxy
    }
}

/// Adds the `http://` scheme to a proxy address that names none.
pub fn normalize_proxy(proxy: &str) -> (r: String)
    ensures
        r@ == normalized_proxy(proxy@),
{
    if contains_str(proxy, "://") {
        String::from_str(proxy)
    } else {
        String::from_str("http://").concat(proxy)
    }
}

/// A normalized proxy address names a scheme.
pub proof fn lemma_normalized_proxy_has_scheme(proxy: Seq<char>)
    ensures
        contains_seq(normalized_proxy(proxy), "://"@),
{
    reveal_strlit("://");
    reveal_strlit("http://");
    if !contains_seq(proxy, "://"@) {
        let r = "http://"@ + proxy;
        assert(r.subrange(4, 7) =~= "://"@);
        assert(crate::text::occurs_at(r, "://"@, 4));
    }
}

/// Normalizing a proxy address twice gives what normalizing once gives.
pub proof fn lemma_normalize_proxy_idempotent(proxy: Seq<char>)
    ensures
        normalized_proxy(normalized_proxy(proxy)) == normalized_proxy(proxy),
{
    lemma_normalized_proxy_has_scheme(proxy);
}

#[verifier::external_type_specification]
#[verifier::external_body]
pub struct ExClient(reqwest::blocking::Client);

#[verifier::external_type_specification]
#[verifier::external_body]
pub struct ExClientBuilder(reqwest::blocking::ClientBuilder);

#[verifier::external_type_specification]
#[verifier::external_body]
pub struct ExProxy(reqwest::Proxy);

#[verifier::external_type_specification]
#[verifier::external_body]
pub struct ExReqwestError(reqwest::Error);

/// The address `reqwest::Proxy::all` routes every request to when given
/// `url`: `None` where it refuses `url`.
pub uninterp spec fn proxy_address(url: Seq<char>) -> Option<Seq<char>>;

/// The address that a proxy made by `reqwest::Proxy::all` routes every
/// request to.
pub uninterp spec fn proxy_target(proxy: reqwest::Proxy) -> Seq<char>;

/// The addresses of the proxies added to a client builder with
/// `ClientBuilder::proxy`, in the order they were added.
pub uninterp spec fn builder_proxies(builder: reqwest::blocking::ClientBuilder) -> Seq<Seq<char>>;

/// Whether a client builder will also use the system's proxy settings.
pub uninterp spec fn builder_uses_system_proxy(builder: reqwest::blocking::ClientBuilder) -> bool;

/// The addresses of the proxies a client was built with, in order.
pub uninterp spec fn client_proxies(client: reqwest::blocking::Client) -> Seq<Seq<char>>;

/// Whether a client also uses the system's proxy settings.
pub uninterp spec fn client_uses_system_proxy(client: reqwest::blocking::Client) -> bool;

/// `reqwest::blocking::Client::builder`. Claimed, as the crate's source
/// shows: the builder holds no proxy and will use the system's proxy
/// settings.
#[verifier::external_body]
fn client_builder() -> (r: reqwest::blocking::ClientBuilder)
    ensures
        builder_proxies(r) == Seq::<Seq<char>>::empty(),
        builder_uses_system_proxy(r),
{
    reqwest::blocking::Client::builder()
}

/// `reqwest::Proxy::all`, a proxy for every scheme. Claimed: it succeeds
/// exactly when the named address exists for `url`, and the proxy routes to
/// that address.
#[verifier::external_body]
fn proxy_all(url: &str) -> (r: Result<reqwest::Proxy, reqwest::Error>)
    ensures
        r is Ok <==> proxy_address(url@) is Some,
        r matches Ok(p) ==> proxy_address(url@) == Some(proxy_target(p)),
{
    reqwest::Proxy::all(url)
}

/// `reqwest::blocking::ClientBuilder::proxy`. Claimed, as the crate's source
/// shows: the proxy is added after those the builder holds, and the system's
/// proxy settings are no longer used.
#[verifier::external_body]
fn builder_with_proxy(builder: reqwest::blocking::ClientBuilder, proxy: reqwest::Proxy) -> (r: reqwest::blocking::ClientBuilder)
    ensures
        builder_proxies(r) == builder_proxies(builder).push(proxy_target(proxy)),
        !builder_uses_system_proxy(r),
{
    builder.proxy(proxy)
}

/// `reqwest::blocking::ClientBuilder::build`. Whether it succeeds depends on
/// the machine (the TLS backend and the runtime thread), so success is not
/// claimed. It panics when called from a thread that runs an async runtime;
/// that depends on the caller's thread, not on any argument, so no
/// `requires` can rule it out, and callers of `build_client` must not call
/// it from such a thread. Claimed, as the crate's source shows: a client it
/// builds uses the builder's proxies, in order, and the system's proxy
/// settings exactly when the builder would.
#[verifier::external_body]
fn build_from(builder: reqwest::blocking::ClientBuilder) -> (r: Result<reqwest::blocking::Client, reqwest::Error>)
    ensures
        r matches Ok(c) ==> {
            &&& client_proxies(c) == builder_proxies(builder)
            &&& client_uses_system_proxy(c) == builder_uses_system_proxy(builder)
        },
{
    builder.build()
}

/// The proxy addresses a client is configured with for the optional proxy
/// address given: none, or the address `Proxy::all` makes of the normalized
/// one.
pub open spec fn configured_proxies(proxy: Option<Seq<char>>) -> Seq<Seq<char>> {
    match proxy {
        Some(p) => seq![proxy_address(normalized_proxy(p))->0],
        None => Seq::empty(),
    }
}

/// The client builder for the optional proxy address: with no proxy, one
/// that uses the system's settings; with one, one that routes every request
/// through the normalized address, or the error where that is refused.
pub fn configure_builder(proxy: Option<&str>) -> (r: Result<reqwest::blocking::ClientBuilder, reqwest::Error>)
    ensures
        r is Err <==> (proxy matches Some(p) && proxy_address(normalized_proxy(p@)) is None),
        r matches Ok(b) ==> {
            &&& builder_proxies(b) == configured_proxies(
                match proxy {
                    Some(p) => Some(p@),
                    None => None,
                },
            )
            &&& builder_uses_system_proxy(b) == proxy is None
        },
{
    let builder = client_builder();
    match proxy {
        Some(proxy_value) => {
            let proxy_url = normalize_proxy(proxy_value);
            match proxy_all(proxy_url.as_str()) {
                Ok(p) => {
                    let b = builder_with_proxy(builder, p);
                    assert(builder_proxies(b) =~= seq![proxy_target(p)]);
                    Ok(b)
                },
                Err(e) => Err(e),
            }
        },
        None => Ok(builder),
    }
}

/// Builds the HTTP client. With no proxy address it uses the system's proxy
/// settings; with one it routes every request through the normalized
/// address, and fails where that address is refused. Whether building
/// succeeds otherwise is the client builder's to decide.
pub fn build_client(proxy: Option<&str>) -> (r: Result<reqwest::blocking::Client, reqwest::Error>)
    ensures
        proxy matches Some(p) && proxy_address(normalized_proxy(p@)) is None ==> r is Err,
        r matches Ok(c) ==> {
            &&& client_proxies(c) == configured_proxies(
                match proxy {
                    Some(p) => Some(p@),
                    None => None,
                },
            )
            &&& client_uses_system_proxy(c) == proxy is None
        },
{
    match configure_builder(proxy) {
        Ok(builder) => build_from(builder),
        Err(e) => Err(e),
    }
}

/// The user agents a request is sent with, one of them picked at random for
/// each request.
pub open spec fn known_user_agents() -> Seq<&'static str> {
    seq![
        "Mozilla/5.0 (Windows NT 10.0; Win64; x64) AppleWebKit/537.36 (KHTML, like Gecko) Chrome/58.0.3029.110 Safari/537.36",
        "Mozilla/5.0 (Windows NT 6.1; WOW64; rv:54.0) Gecko/20100101 Firefox/54.0",
        "Mozilla/5.0 (Windows NT 6.1; Win64; x64) AppleWebKit/537.36 (KHTML, like Gecko) Chrome/58.0.3029.110 Safari/537.36",
        "Mozilla/5.0 (Windows NT 10.0; WOW64; rv:54.0) Gecko/20100101 Firefox/54.0",
        "Mozilla/5.0 (Macintosh; Intel Mac OS X 10_12_6) AppleWebKit/537.36 (KHTML, like Gecko) Chrome/58.0.3029.110 Safari/537.36",
        "Mozilla/5.0 (Macintosh; Intel Mac OS X 10_12_6) AppleWebKit/603.3.8 (KHTML, like Gecko) Version/10.1.2 Safari/603.3.8",
        "Mozilla/5.0 (Windows NT 10.0; Win64; x64) AppleWebKit/537.36 (KHTML, like Gecko) Chrome/89.0.4389.82 Safari/537.36 Edg/89.0.774.45",
        "Mozilla/5.0 (Windows NT 10.0; WOW64; Trident/7.0; AS; rv:11.0) like Gecko",
        "Mozilla/5.0 (Windows NT 10.0; Win64; x64) AppleWebKit/537.36 (KHTML, like Gecko) Chrome/58.0.3029.96 Safari/537.36 Edge/16.16299",
        "Mozilla/5.0 (Windows NT 10.0; Win64; x64) AppleWebKit/537.36 (KHTML, like Gecko) Chrome/58.0.3029.110 Safari/537.36 OPR/45.0.2552.898",
        "Mozilla/5.0 (Windows NT 10.0; Win64; x64) AppleWebKit/537.36 (KHTML, like Gecko) Chrome/58.0.3029.110 Safari/537.36 Vivaldi/1.8.770.50",
        "Mozilla/5.0 (Windows NT 10.0; Win64; x64; rv:54.0) Gecko/20100101 Firefox/54.0",
        "Mozilla/5.0 (Windows NT 10.0; Win64; x64) AppleWebKit/537.36 (KHTML, like Gecko) Chrome/58.0.3029.110 Safari/537.36 Edge/15.15063",
        "Mozilla/5.0 (Windows NT 10.0; Win64; x64) AppleWebKit/537.36 (KHTML, like Gecko) Chrome/58.0.3029.110 Safari/537.36 Edge/15.15063",
        "Mozilla/5.0 (Windows NT 10.0; Win64; x64) AppleWebKit/537.36 (KHTML, like Gecko) Chrome/58.0.3029.81 Safari/537.36",
    ]
}

/// The user agents a request is sent with.
pub fn user_agents() -> (r: Vec<&'static str>)
    ensures
        r@ == known_user_agents(),
{
    let v = vec![
        "Mozilla/5.0 (Windows NT 10.0; Win64; x64) AppleWebKit/537.36 (KHTML, like Gecko) Chrome/58.0.3029.110 Safari/537.36",
        "Mozilla/5.0 (Windows NT 6.1; WOW64; rv:54.0) Gecko/20100101 Firefox/54.0",
        "Mozilla/5.0 (Windows NT 6.1; Win64; x64) AppleWebKit/537.36 (KHTML, like Gecko) Chrome/58.0.3029.110 Safari/537.36",
        "Mozilla/5.0 (Windows NT 10.0; WOW64; rv:54.0) Gecko/20100101 Firefox/54.0",
        "Mozilla/5.0 (Macintosh; Intel Mac OS X 10_12_6) AppleWebKit/537.36 (KHTML, like Gecko) Chrome/58.0.3029.110 Safari/537.36",
        "Mozilla/5.0 (Macintosh; Intel Mac OS X 10_12_6) AppleWebKit/603.3.8 (KHTML, like Gecko) Version/10.1.2 Safari/603.3.8",
        "Mozilla/5.0 (Windows NT 10.0; Win64; x64) AppleWebKit/537.36 (KHTML, like Gecko) Chrome/89.0.4389.82 Safari/537.36 Edg/89.0.774.45",
        "Mozilla/5.0 (Windows NT 10.0; WOW64; Trident/7.0; AS; rv:11.0) like Gecko",
        "Mozilla/5.0 (Windows NT 10.0; Win64; x64) AppleWebKit/537.36 (KHTML, like Gecko) Chrome/58.0.3029.96 Safari/537.36 Edge/16.16299",
        "Mozilla/5.0 (Windows NT 10.0; Win64; x64) AppleWebKit/537.36 (KHTML, like Gecko) Chrome/58.0.3029.110 Safari/537.36 OPR/45.0.2552.898",
        "Mozilla/5.0 (Windows NT 10.0; Win64; x64) AppleWebKit/537.36 (KHTML, like Gecko) Chrome/58.0.3029.110 Safari/537.36 Vivaldi/1.8.770.50",
        "Mozilla/5.0 (Windows NT 10.0; Win64; x64; rv:54.0) Gecko/20100101 Firefox/54.0",
        "Mozilla/5.0 (Windows NT 10.0; Win64; x64) AppleWebKit/537.36 (KHTML, like Gecko) Chrome/58.0.3029.110 Safari/537.36 Edge/15.15063",
        "Mozilla/5.0 (Windows NT 10.0; Win64; x64) AppleWebKit/537.36 (KHTML, like Gecko) Chrome/58.0.3029.110 Safari/537.36 Edge/15.15063",
        "Mozilla/5.0 (Windows NT 10.0; Win64; x64) AppleWebKit/537.36 (KHTML, like Gecko) Chrome/58.0.3029.81 Safari/537.36",
    ];
    assert(v@ =~= known_user_agents());
    v
}

/// `rand::seq::IndexedRandom::choose` with the thread-local generator
/// `rand::rng()`. The pick is random, so what is claimed holds of every
/// outcome: `None` exactly for an empty slice, else one of its elements.
#[verifier::external_body]
fn choose_from(items: &[&'static str]) -> (r: Option<&'static str>)
    ensures
        r is None <==> items@.len() == 0,
        r matches Some(x) ==> items@.contains(x),
{
    items.choose(&mut rand::rng()).copied()
}

/// The user agent for a drawn choice: the choice, or `Mozilla/5.0` where
/// nothing was drawn.
pub fn user_agent_or_default(choice: Option<&'static str>) -> (r: &'static str)
    ensures
        r == match choice {
            Some(agent) => agent,
            None => "Mozilla/5.0",
        },
{
    match choice {
        Some(agent) => agent,
        None => "Mozilla/5.0",
    }
}

/// Picks the user agent of a request at random among the known ones (the
/// fallback `Mozilla/5.0` is for an empty list, which cannot occur).
pub fn pick_user_agent() -> (r: &'static str)
    ensures
        known_user_agents().contains(r),
{
    let agents = user_agents();
    let choice = choose_from(agents.as_slice());
    proof {
        assert(known_user_agents().len() > 0);
    }
    user_agent_or_default(choice)
}

/// What the caller reports to a fetch in progress.
pub enum FetchEvent {
    /// The request came back: its body, or `None` where the request, its
    /// status or reading its body failed.
    Response(Option<String>),
    /// The pause after a failed request is over.
    PauseOver,
}

/// What a fetch asks the caller to do next.
pub enum FetchAction {
    /// Send the request with this user agent.
    Send { user_agent: &'static str },
    /// Warn that the request failed and wait this many seconds.
    Pause { seconds: u64 },
    /// The fetch succeeded with this body.
    Deliver { text: String },
    /// Every request failed: report it and stop.
    GiveUp,
}

/// The retry protocol of a fetch: up to `MAX_RETRIES` requests, each failure
/// followed by a pause of `RETRY_DELAY_SECS` seconds.
pub struct FetchRetry {
    /// Requests sent so far.
    pub attempts: usize,
    /// A request is out and its response not yet reported.
    pub awaiting: bool,
    /// The fetch delivered or gave up.
    pub finished: bool,
}

impl FetchRetry {
    /// Never more requests than `MAX_RETRIES`; a request is out only after
    /// one was sent.
    pub open spec fn wf(&self) -> bool {
        &&& self.attempts <= MAX_RETRIES
        &&& self.awaiting ==> self.attempts >= 1
    }

    /// The events the protocol expects in its current state.
    pub open spec fn accepts(&self, event: FetchEvent) -> bool {
        &&& !self.finished
        &&& match event {
            FetchEvent::Response(_) => self.awaiting,
            FetchEvent::PauseOver => !self.awaiting,
        }
    }

    /// Starts a fetch: the first request is sent with a random known user agent.
    pub fn start() -> (r: (FetchRetry, FetchAction))
        ensures
            r.0.wf(),
            r.0.attempts == 1,
            r.0.awaiting,
            !r.0.finished,
            r.1 matches FetchAction::Send { user_agent } && known_user_agents().contains(user_agent),
    {
        let agent = pick_user_agent();
        (FetchRetry { attempts: 1, awaiting: true, finished: false }, FetchAction::Send { user_agent: agent })
    }

    /// Takes the next event: a body is delivered; a failure is followed by a
    /// pause; after a pause another request is sent while fewer than
    /// `MAX_RETRIES` were, and the fetch gives up otherwise.
    pub fn step(&mut self, event: FetchEvent) -> (a: FetchAction)
        requires
            old(self).wf(),
            old(self).accepts(event),
        ensures
            final(self).wf(),
            match event {
                FetchEvent::Response(Some(text)) => {
                    &&& a == FetchAction::Deliver { text }
                    &&& final(self).finished
                    &&& final(self).attempts == old(self).attempts
                },
                FetchEvent::Response(None) => {
                    &&& a == FetchAction::Pause { seconds: RETRY_DELAY_SECS }
                    &&& !final(self).finished
                    &&& !final(self).awaiting
                    &&& final(self).attempts == old(self).attempts
                },
                FetchEvent::PauseOver => if old(self).attempts < MAX_RETRIES {
                    &&& a matches FetchAction::Send { user_agent } && known_user_agents().contains(user_agent)
                    &&& final(self).attempts == old(self).attempts + 1
                    &&& final(self).awaiting
                    &&& !final(self).finished
                } else {
                    &&& a == FetchAction::GiveUp
                    &&& final(self).finished
                    &&& final(self).attempts == old(self).attempts
                },
            },
    {
        match event {
            FetchEvent::Response(Some(text)) => {
                self.finished = true;
                self.awaiting = false;
                FetchAction::Deliver { text }
            },
            FetchEvent::Response(None) => {
                self.awaiting = false;
                FetchAction::Pause { seconds: RETRY_DELAY_SECS }
            },
            FetchEvent::PauseOver => {
                if self.attempts < MAX_RETRIES {
                    let agent = pick_user_agent();
                    self.attempts = self.attempts + 1;
                    self.awaiting = true;
                    FetchAction::Send { user_agent: agent }
                } else {
                    self.finished = true;
                    FetchAction::GiveUp
                }
            },
        }
    }
}

} // verus!
