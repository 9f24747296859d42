//! The typed API client the dashboard uses: endpoint construction from the
//! hosting page's URL, and decoding of the blocking-state replies.

use vstd::prelude::*;
use vstd::string::StringExecFns;
use crate::blocking::{spec_blocking_json, BlockingState};
use crate::gateway::str_eq;
use crate::json::{append_u64, push_char, spec_u64_digits};

verus! {

/// Where the typed client sends its calls: the hosting page's host and port,
/// and the fixed `api` prefix.
#[derive(Debug)]
pub struct API {
    pub hostname: String,
    pub port: u16,
    pub endpoint: String,
}

/// The absolute URL of an API call: `http://host:port/endpoint` followed by
/// the call's own path.
pub open spec fn spec_api_url(
    host: Seq<char>,
    port: u16,
    endpoint: Seq<char>,
    path: Seq<char>,
) -> Seq<char> {
    "http://"@ + host + seq![':'] + spec_u64_digits(port as nat) + seq!['/'] + endpoint + path
}

/// The host and port a page URL names, when it parses as an absolute URL
/// with a host and a determinable port; a function of the text alone.
pub uninterp spec fn host_port_of(href: Seq<char>) -> Option<(Seq<char>, u16)>;

/// Relies on `url::Url::parse`, `Url::host_str` and
/// `Url::port_or_known_default`: the host named by `href` and its port —
/// explicit, or the default of its scheme — when `href` parses as an
/// absolute URL carrying both. The result depends on the text alone.
#[verifier::external_body]
fn parse_host_port(href: &str) -> (r: Option<(String, u16)>)
    ensures
        match r {
            Some(hp) => host_port_of(href@) == Some((hp.0@, hp.1)),
            None => host_port_of(href@) is None,
        },
{
    match url::Url::parse(href) {
        Ok(parsed) => match (parsed.host_str(), parsed.port_or_known_default()) {
            (Some(host), Some(port)) => Some((host.to_string(), port)),
            _ => None,
        },
        Err(_) => None,
    }
}

impl API {
    /// A client aimed at `hostname:port` under the given API prefix.
    pub fn new(hostname: String, port: u16, endpoint: String) -> (r: API)
        ensures
            r.hostname@ == hostname@,
            r.port == port,
            r.endpoint@ == endpoint@,
    {
        API { hostname, port, endpoint }
    }

    /// The client for the page at `href`: the page's own host and port with
    /// the fixed `api` prefix, or `None` when the page URL yields neither.
    pub fn from_href(href: &str) -> (r: Option<API>)
        ensures
            match host_port_of(href@) {
                Some(hp) => r matches Some(a) && a.hostname@ == hp.0 && a.port == hp.1
                    && a.endpoint@ == "api"@,
                None => r is None,
            },
    {
        match parse_host_port(href) {
            Some((host, port)) => Some(API::new(host, port, String::from_str("api"))),
            None => None,
        }
    }

    /// The URL a call to `path` goes to.
    pub fn url_for(&self, path: &str) -> (r: String)
        ensures
            r@ == spec_api_url(self.hostname@, self.port, self.endpoint@, path@),
    {
        let mut out = String::from_str("http://");
        out.append(self.hostname.as_str());
        push_char(&mut out, ':');
        append_u64(&mut out, self.port as u64);
        push_char(&mut out, '/');
        out.append(self.endpoint.as_str());
        out.append(path);
        assert(out@ =~= spec_api_url(self.hostname@, self.port, self.endpoint@, path@));
        out
    }
}

/// The state a blocking reply reports: replies are exactly the two bodies
/// the gateway emits, and any other text is a decoding failure.
pub open spec fn spec_parse_blocking(body: Seq<char>) -> Option<BlockingState> {
    if body == spec_blocking_json(BlockingState::Enabled) {
        Some(BlockingState::Enabled)
    } else if body == spec_blocking_json(BlockingState::Disabled) {
        Some(BlockingState::Disabled)
    } else {
        None
    }
}

/// Decodes the body of a `GET` or `POST /api/blocking` reply.
pub fn parse_blocking_response(body: &str) -> (r: Option<BlockingState>)
    ensures
        r == spec_parse_blocking(body@),
{
    if str_eq(body, "{\"state\":\"Enabled\"}") {
        Some(BlockingState::Enabled)
    } else if str_eq(body, "{\"state\":\"Disabled\"}") {
        Some(BlockingState::Disabled)
    } else {
        None
    }
}

/// Decoding the blocking body the gateway emits for a state gives back that
/// state: the two bodies are distinct and each decodes to its own state.
pub proof fn lemma_blocking_body_round_trip(s: BlockingState)
    ensures
        spec_parse_blocking(spec_blocking_json(s)) == Some(s),
{
    reveal_strlit("{\"state\":\"Enabled\"}");
    reveal_strlit("{\"state\":\"Disabled\"}");
    assert("{\"state\":\"Enabled\"}"@.len() == 19);
    assert("{\"state\":\"Disabled\"}"@.len() == 20);
}

} // verus!
