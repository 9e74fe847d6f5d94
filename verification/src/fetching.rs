use vstd::prelude::*;

verus! {

/// What a single HTTP request attempt produced, as seen by the crawl engine:
/// either the request completed with a status code and a page body, or the
/// transport failed, or the deadline elapsed first.
pub enum FetchEvent {
    Completed(u16, String),
    Failed,
    DeadlineElapsed,
}

/// The terminal classification of one URL, carrying the origin reference (the
/// raw string that led to this URL) and, except for `Malformed`, the resolved
/// absolute URL it denotes.
#[derive(Debug, Clone)]
pub enum UrlState {
    Accessible(String, String),
    BadStatus(String, String, u16),
    ConnectionFailed(String, String),
    TimedOut(String, String),
    Malformed(String, String),
}

/// The mathematical shape of a `UrlState`: the same variants over character
/// sequences instead of heap strings.
pub enum OutcomeRepr {
    Accessible(Seq<char>, Seq<char>),
    BadStatus(Seq<char>, Seq<char>, u16),
    ConnectionFailed(Seq<char>, Seq<char>),
    TimedOut(Seq<char>, Seq<char>),
    Malformed(Seq<char>, Seq<char>),
}

impl View for UrlState {
    type V = OutcomeRepr;

    open spec fn view(&self) -> OutcomeRepr {
        match self {
            UrlState::Accessible(o, u) => OutcomeRepr::Accessible(o@, u@),
            UrlState::BadStatus(o, u, s) => OutcomeRepr::BadStatus(o@, u@, *s),
            UrlState::ConnectionFailed(o, u) => OutcomeRepr::ConnectionFailed(o@, u@),
            UrlState::TimedOut(o, u) => OutcomeRepr::TimedOut(o@, u@),
            UrlState::Malformed(o, r) => OutcomeRepr::Malformed(o@, r@),
        }
    }
}

/// An HTTP status code counts as success exactly when it lies in the 2xx range.
pub open spec fn is_success_status(status: u16) -> bool {
    200 <= status <= 299
}

/// How one fetch event is classified, given the origin reference and the
/// resolved URL the request was made against.
pub open spec fn classify_event(origin: Seq<char>, url: Seq<char>, ev: FetchEvent) -> OutcomeRepr {
    match ev {
        FetchEvent::Completed(status, _body) => if is_success_status(status) {
            OutcomeRepr::Accessible(origin, url)
        } else {
            OutcomeRepr::BadStatus(origin, url, status)
        },
        FetchEvent::Failed => OutcomeRepr::ConnectionFailed(origin, url),
        FetchEvent::DeadlineElapsed => OutcomeRepr::TimedOut(origin, url),
    }
}

/// Turn the outcome of one fetch attempt into the published classification.
/// A request that outlived the deadline is always `TimedOut`, never
/// `Accessible` or `BadStatus`, whatever the request would have returned.
pub fn classify(origin: &str, url: &str, ev: FetchEvent) -> (r: UrlState)
    ensures
        r@ == classify_event(origin@, url@, ev),
{
    let origin_owned = origin.to_owned();
    let url_owned = url.to_owned();
    match ev {
        FetchEvent::Completed(status, _body) => if 200 <= status && status <= 299 {
            UrlState::Accessible(origin_owned, url_owned)
        } else {
            UrlState::BadStatus(origin_owned, url_owned, status)
        },
        FetchEvent::Failed => UrlState::ConnectionFailed(origin_owned, url_owned),
        FetchEvent::DeadlineElapsed => UrlState::TimedOut(origin_owned, url_owned),
    }
}

/// Timeout boundary law: an attempt whose deadline elapsed before the request
/// resolved is always classified `TimedOut` — never `Accessible` and never
/// `BadStatus` — whatever the abandoned request would eventually have
/// returned, since the elapsed deadline is its own event and carries no
/// response.
pub proof fn lemma_timeout_boundary(origin: Seq<char>, url: Seq<char>)
    ensures
        classify_event(origin, url, FetchEvent::DeadlineElapsed) == OutcomeRepr::TimedOut(
            origin,
            url,
        ),
        forall|ev: FetchEvent|
            #[trigger] classify_event(origin, url, ev) matches OutcomeRepr::TimedOut(_o, _u)
                ==> ev is DeadlineElapsed,
{
}

/// The origin reference carried by an outcome: the raw string whose claim led
/// to it.
pub open spec fn origin_of(o: OutcomeRepr) -> Seq<char> {
    match o {
        OutcomeRepr::Accessible(org, _) => org,
        OutcomeRepr::BadStatus(org, _, _) => org,
        OutcomeRepr::ConnectionFailed(org, _) => org,
        OutcomeRepr::TimedOut(org, _) => org,
        OutcomeRepr::Malformed(org, _) => org,
    }
}

/// The absolute URL string that resolving `path` against the base URL string
/// `base` yields, if the pair resolves at all.
pub uninterp spec fn joined_url_of(base: Seq<char>, path: Seq<char>) -> Option<Seq<char>>;

/// The absolute URL string that resolving `path` against the crawl's target
/// domain yields, if the pair resolves at all: the base URL is the domain
/// under the `http` scheme. A raw string that does not resolve is classified
/// `Malformed`.
pub open spec fn resolved_url_of(domain: Seq<char>, path: Seq<char>) -> Option<Seq<char>> {
    joined_url_of("http://"@ + domain, path)
}

/// The registered domain of an absolute URL string, when the string parses as
/// a URL whose host is a domain name.
pub uninterp spec fn domain_of(url: Seq<char>) -> Option<Seq<char>>;

/// Relies on url::Url::parse and url::Url::join: whether and how `path`
/// resolves against the base URL string `base` depends on the two strings
/// alone.
#[verifier::external_body]
fn join_base(base: &str, path: &str) -> (r: Option<String>)
    ensures
        r matches Some(u) ==> joined_url_of(base@, path@) == Some(u@),
        r is None ==> joined_url_of(base@, path@) is None,
{
    match url::Url::parse(base) {
        Ok(base_url) => match base_url.join(path) {
            Ok(u) => Some(u.as_str().to_owned()),
            Err(_) => None,
        },
        Err(_) => None,
    }
}

/// Resolve a raw string against the crawl's target domain: put the domain
/// under the `http` scheme and join the raw string against that base.
pub(crate) fn build_url(domain: &str, path: &str) -> (r: Option<String>)
    ensures
        r matches Some(u) ==> resolved_url_of(domain@, path@) == Some(u@),
        r is None ==> resolved_url_of(domain@, path@) is None,
{
    let mut base = "http://".to_owned();
    base.append(domain);
    join_base(base.as_str(), path)
}

/// Relies on url::Url::parse and url::Url::domain: the domain of a URL string
/// depends on the string alone.
#[verifier::external_body]
fn url_domain(url: &str) -> (r: Option<String>)
    ensures
        r matches Some(d) ==> domain_of(url@) == Some(d@),
        r is None ==> domain_of(url@) is None,
{
    match url::Url::parse(url) {
        Ok(u) => match u.domain() {
            Some(d) => Some(d.to_owned()),
            None => None,
        },
        Err(_) => None,
    }
}

/// An absolute URL string lies in the crawl's target domain exactly when its
/// domain equals the target domain, byte for byte.
pub open spec fn in_target_domain(domain: Seq<char>, url: Seq<char>) -> bool {
    domain_of(url) == Some(domain)
}

/// Decide whether an absolute URL string lies in the target domain.
pub fn is_in_domain(domain: &str, url: &str) -> (r: bool)
    ensures
        r == in_target_domain(domain@, url@),
{
    match url_domain(url) {
        Some(d) => d.eq(&domain.to_owned()),
        None => false,
    }
}

/// An outcome calls for expansion exactly when it is `Accessible` and its
/// resolved URL lies in the target domain. No other outcome — and no
/// accessible page of a foreign domain — ever contributes new pending work.
pub open spec fn should_expand_spec(domain: Seq<char>, o: OutcomeRepr) -> bool {
    o matches OutcomeRepr::Accessible(_org, u) && in_target_domain(domain, u)
}

/// Decide whether an outcome's page is to be expanded (its links enqueued).
pub fn should_expand(domain: &str, state: &UrlState) -> (r: bool)
    ensures
        r == should_expand_spec(domain@, state@),
{
    match state {
        UrlState::Accessible(_org, u) => is_in_domain(domain, u.as_str()),
        _ => false,
    }
}

/// How long one request may run before the deadline elapses, in seconds.
pub const TIMEOUT_SECS: u64 = 10;

/// Relies on reqwest's blocking client (reqwest::blocking::ClientBuilder with
/// timeout and redirect Policy::none, Client::get, RequestBuilder::send,
/// Response::status, Response::text): one GET against `url` with a hard
/// deadline of `timeout_secs`, redirects reported as their raw status rather
/// than followed. The event depends on the network, so nothing is promised of
/// which variant comes back; a completed response carries a status code in
/// the range http::StatusCode supports. The blocking client panics when it is
/// built inside an async runtime, so this must only be called from ordinary
/// threads.
#[verifier::external_body]
fn fetch_with_timeout(url: &str, timeout_secs: u64) -> (ev: FetchEvent)
    ensures
        ev matches FetchEvent::Completed(status, _body) ==> 100 <= status <= 999,
{
    let deadline = core::time::Duration::from_secs(timeout_secs);
    let policy = reqwest::redirect::Policy::none();
    let builder = reqwest::blocking::Client::builder().timeout(deadline).redirect(policy);
    let client = match builder.build() { Ok(c) => c, Err(_) => return FetchEvent::Failed };
    match client.get(url).send() {
        Ok(resp) => {
            let status = resp.status().as_u16();
            FetchEvent::Completed(status, resp.text().unwrap_or_default())
        },
        Err(e) if e.is_timeout() => FetchEvent::DeadlineElapsed,
        Err(_) => FetchEvent::Failed,
    }
}

/// The page body that one fetch event offers for expansion: the body of a
/// successful response, and nothing otherwise.
pub open spec fn expansion_body(ev: FetchEvent, body: Option<String>) -> bool {
    match ev {
        FetchEvent::Completed(status, b) => if is_success_status(status) {
            body matches Some(bb) && bb@ == b@
        } else {
            body is None
        },
        FetchEvent::Failed => body is None,
        FetchEvent::DeadlineElapsed => body is None,
    }
}

/// What one probe of `path` guarantees: resolution failure yields exactly the
/// `Malformed` outcome and no body; successful resolution yields the
/// classification of some fetch event against the resolved URL, with the body
/// that event offers for expansion.
pub open spec fn probe_post(
    domain: Seq<char>,
    origin: Seq<char>,
    path: Seq<char>,
    st: OutcomeRepr,
    body: Option<String>,
) -> bool {
    match resolved_url_of(domain, path) {
        Option::None => st == OutcomeRepr::Malformed(origin, path) && body is None,
        Option::Some(u) => exists|ev: FetchEvent|
            #[trigger] classify_event(origin, u, ev) == st && expansion_body(ev, body),
    }
}

/// One full probe of a raw URL string: resolve it against the target domain,
/// and — unless resolution fails, which costs no network traffic — race one
/// GET against the deadline and classify what happened. Returns the
/// classification and, for a successful in-time response, the page body for
/// expansion. Exactly one outcome comes back for every input.
pub fn probe(domain: &str, origin: &str, path: &str) -> (r: (UrlState, Option<String>))
    ensures
        probe_post(domain@, origin@, path@, r.0@, r.1),
{
    match build_url(domain, path) {
        None => (UrlState::Malformed(origin.to_owned(), path.to_owned()), None),
        Some(url) => {
            let ghost gu = url@;
            let ev = fetch_with_timeout(url.as_str(), TIMEOUT_SECS);
            let ghost gev = ev;
            let origin_owned = origin.to_owned();
            match ev {
                FetchEvent::Completed(status, body) => if 200 <= status && status <= 299 {
                    let r = (UrlState::Accessible(origin_owned, url), Some(body));
                    proof {
                        assert(classify_event(origin@, gu, gev) == r.0@
                            && expansion_body(gev, r.1));
                        assert(resolved_url_of(domain@, path@) == Some(gu));
                        assert(probe_post(domain@, origin@, path@, r.0@, r.1));
                    }
                    r
                } else {
                    let r = (UrlState::BadStatus(origin_owned, url, status), None);
                    proof {
                        assert(classify_event(origin@, gu, gev) == r.0@
                            && expansion_body(gev, r.1));
                        assert(resolved_url_of(domain@, path@) == Some(gu));
                        assert(probe_post(domain@, origin@, path@, r.0@, r.1));
                    }
                    r
                },
                FetchEvent::Failed => {
                    let r = (UrlState::ConnectionFailed(origin_owned, url), None);
                    proof {
                        assert(classify_event(origin@, gu, gev) == r.0@
                            && expansion_body(gev, r.1));
                        assert(resolved_url_of(domain@, path@) == Some(gu));
                        assert(probe_post(domain@, origin@, path@, r.0@, r.1));
                    }
                    r
                },
                FetchEvent::DeadlineElapsed => {
                    let r = (UrlState::TimedOut(origin_owned, url), None);
                    proof {
                        assert(classify_event(origin@, gu, gev) == r.0@
                            && expansion_body(gev, r.1));
                        assert(resolved_url_of(domain@, path@) == Some(gu));
                        assert(probe_post(domain@, origin@, path@, r.0@, r.1));
                    }
                    r
                },
            }
        },
    }
}

/// An outcome is consistent with the target domain exactly when its variant
/// and fields are ones a probe of its origin reference could have produced:
/// `Malformed` carries the origin itself and arises if and only if the origin
/// does not resolve; every other variant carries the origin's resolved URL
/// and the classification of some fetch event.
pub open spec fn outcome_consistent(domain: Seq<char>, st: OutcomeRepr) -> bool {
    let org = origin_of(st);
    match resolved_url_of(domain, org) {
        Option::None => st == OutcomeRepr::Malformed(org, org),
        Option::Some(u) => exists|ev: FetchEvent| #[trigger] classify_event(org, u, ev) == st,
    }
}

/// A probe of a raw string against itself as origin yields an outcome that is
/// consistent with the target domain and carries that string as its origin.
pub proof fn lemma_probe_post_consistent(
    domain: Seq<char>,
    raw: Seq<char>,
    st: OutcomeRepr,
    body: Option<String>,
)
    requires
        probe_post(domain, raw, raw, st, body),
    ensures
        outcome_consistent(domain, st),
        origin_of(st) == raw,
{
    match resolved_url_of(domain, raw) {
        Option::None => {
        },
        Option::Some(u) => {
            let ev = choose|ev: FetchEvent|
                #[trigger] classify_event(raw, u, ev) == st && expansion_body(ev, body);
            assert(classify_event(raw, u, ev) == st);
        },
    }
}

/// Classify one raw URL string against the target domain: `Malformed` when it
/// does not resolve — if and only if — and otherwise the classification of
/// one raced GET against the resolved URL.
pub fn url_status(domain: &str, old_path: &str, path: &str) -> (r: UrlState)
    ensures
        resolved_url_of(domain@, path@) is None ==> r@ == OutcomeRepr::Malformed(old_path@, path@),
        resolved_url_of(domain@, path@) is Some ==> exists|ev: FetchEvent|
            #[trigger] classify_event(old_path@, resolved_url_of(domain@, path@).unwrap(), ev) == r@,
        resolved_url_of(domain@, path@) is Some ==> !(r@ matches OutcomeRepr::Malformed(_o, _p)),
{
    let (state, body) = probe(domain, old_path, path);
    proof {
        if resolved_url_of(domain@, path@) is Some {
            let u = resolved_url_of(domain@, path@).unwrap();
            let ev = choose|ev: FetchEvent|
                #[trigger] classify_event(old_path@, u, ev) == state@
                    && expansion_body(ev, body);
            assert(classify_event(old_path@, u, ev) == state@);
        }
    }
    state
}

/// Relies on reqwest::blocking::get and reqwest::blocking::Response::text:
/// one plain GET for a page body, with reqwest's default behaviour. The body
/// depends on the network, so nothing is promised of it; a body that cannot
/// be read comes back empty.
#[verifier::external_body]
pub fn fetch_url(url: &str) -> String {
    let res = match reqwest::blocking::get(url) {
        Ok(res) => res,
        Err(_) => return String::new(),
    };
    match res.text() {
        Ok(body) => body,
        Err(_) => String::new(),
    }
}

/// Fetch the requested URL and return the raw link strings found on the page,
/// malformed ones included: classification of malformed links is the crawl's
/// responsibility, not the extractor's. Which page text comes back depends on
/// the network, but the result is exactly the extractor's output for some
/// page text: in the extractor's order, unfiltered, always finite.
pub fn fetch_all_urls(url: &str) -> (r: Vec<String>)
    ensures
        exists|b: Seq<char>| r.deep_view() == #[trigger] crate::parsing::links_of(b),
{
    let html_src = fetch_url(url);
    let r = crate::parsing::get_urls(html_src.as_str());
    proof {
        assert(r.deep_view() == crate::parsing::links_of(html_src@));
    }
    r
}


} // verus!
