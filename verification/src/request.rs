//! Pre-built HTTP request scaffolding.
//!
//! Everything that does not change between submissions, the URI and the
//! `user-agent` header value, is checked once at construction.

use bytes::Bytes;
use vstd::prelude::*;
use vstd::string::*;

use crate::config::Config;
use crate::error::{Error, Fault};
use crate::text::push_numeral;

verus! {

/// What parsing a text as `http::Uri` comes to: nothing to report, or the
/// message of the error.
pub uninterp spec fn uri_parse(text: Seq<char>) -> Result<(), Seq<char>>;

/// Parses `text` as `http::Uri`: the outcome is fixed by the text. Which texts
/// are URIs is left unsaid.
#[verifier::external_body]
fn parse_uri(text: &str) -> (r: Result<(), String>)
    ensures
        (match r {
            Ok(()) => Ok(()),
            Err(e) => Err(e@),
        }) == uri_parse(text@),
{
    match text.parse::<http::Uri>() {
        Ok(_) => Ok(()),
        Err(e) => Err(e.to_string()),
    }
}

/// Whether every byte may stand in a header value: anything from space up but
/// DEL, and the tab.
pub open spec fn is_header_value(bytes: Seq<u8>) -> bool {
    forall|i: int|
        0 <= i < bytes.len() ==> (#[trigger] bytes[i] >= 32 && bytes[i] != 127) || bytes[i] == 9
}

/// Calls `http::HeaderValue::from_str`: it takes a text whose UTF-8 bytes may
/// all stand in a header value, and its error has one message.
#[verifier::external_body]
fn check_header_value(text: &str) -> (r: Result<(), String>)
    ensures
        r is Ok <==> is_header_value(vstd::utf8::encode_utf8(text@)),
        r matches Err(e) ==> e@ == "failed to parse header value"@,
{
    match http::HeaderValue::from_str(text) {
        Ok(_) => Ok(()),
        Err(e) => Err(e.to_string()),
    }
}

/// A request ready to be sent.
#[derive(Debug)]
pub struct OutboundRequest {
    /// HTTP method.
    pub method: &'static str,
    /// Absolute URI, source of the `:scheme`, `:authority` and `:path`
    /// pseudo-headers.
    pub uri: String,
    /// `content-type` header value.
    pub content_type: &'static str,
    /// `accept` header value.
    pub accept: &'static str,
    /// `user-agent` header value.
    pub user_agent: String,
    /// The JSON-RPC body.
    pub body: Bytes,
}

/// Reusable request skeleton for one sequencer host.
#[derive(Clone, Debug)]
pub struct RequestTemplate {
    /// Absolute `https://host[:port]/` URI.
    pub uri: String,
    /// `user-agent` value.
    pub user_agent: String,
}

/// Host and port as they stand in the URI; the default TLS port is left out.
pub open spec fn authority(host: Seq<char>, port: u16) -> Seq<char> {
    if port == 443 {
        host
    } else {
        host + ":"@ + crate::text::decimal(port as nat)
    }
}

/// The URI requests for this host and port go to.
pub open spec fn request_uri(host: Seq<char>, port: u16) -> Seq<char> {
    "https://"@ + authority(host, port) + "/"@
}

impl RequestTemplate {
    /// Why no template can be made for these settings, if that is so.
    pub open spec fn flaw(cfg: Config) -> Option<Seq<char>> {
        match uri_parse(request_uri(cfg.host@, cfg.port)) {
            Err(e) => Some(
                "cannot build URI for `"@ + authority(cfg.host@, cfg.port) + "`: "@ + e,
            ),
            Ok(()) => if is_header_value(vstd::utf8::encode_utf8(cfg.user_agent@)) {
                None
            } else {
                Some(
                    "user_agent is not a valid header value: "@ + "failed to parse header value"@,
                )
            },
        }
    }

    /// Whether this is the template for the given settings.
    pub open spec fn is_for(self, cfg: Config) -> bool {
        &&& self.uri@ == request_uri(cfg.host@, cfg.port)
        &&& self.user_agent@ == cfg.user_agent@
    }

    /// Whether `req` is the request for this host that carries `body`.
    pub open spec fn is_request(self, req: OutboundRequest, body: Bytes) -> bool {
        &&& req.method@ == "POST"@
        &&& req.uri@ == self.uri@
        &&& req.content_type@ == "application/json"@
        &&& req.accept@ == "application/json"@
        &&& req.user_agent@ == self.user_agent@
        &&& req.body == body
    }

    /// Check the per-host constants once.
    ///
    /// # Errors
    ///
    /// [`Error::Config`] if `host` and `port` do not form a valid URI, or if
    /// `user_agent` contains bytes a header value cannot hold.
    pub fn new(cfg: &Config) -> (r: Result<RequestTemplate, Error>)
        ensures
            match r {
                Ok(t) => {
                    &&& RequestTemplate::flaw(*cfg) is None
                    &&& t.is_for(*cfg)
                },
                Err(e) => {
                    &&& RequestTemplate::flaw(*cfg) is Some
                    &&& e@ == Fault::Config(RequestTemplate::flaw(*cfg)->0)
                },
            },
    {
        let mut authority = cfg.host.clone();
        if cfg.port != 443 {
            authority.append(":");
            push_numeral(&mut authority, cfg.port as u64, 10);
        }
        let mut uri = "https://".to_owned();
        uri.append(&authority);
        uri.append("/");
        if let Err(e) = parse_uri(&uri) {
            let mut message = "cannot build URI for `".to_owned();
            message.append(&authority);
            message.append("`: ");
            message.append(&e);
            return Err(Error::Config(message));
        }
        if let Err(e) = check_header_value(&cfg.user_agent) {
            let mut message = "user_agent is not a valid header value: ".to_owned();
            message.append(&e);
            return Err(Error::Config(message));
        }
        Ok(RequestTemplate { uri, user_agent: cfg.user_agent.clone() })
    }

    /// Wrap a JSON-RPC body in a ready-to-send request.
    ///
    /// The absolute URI supplies HTTP/2's `:scheme` and `:authority`
    /// pseudo-headers, so no separate `host` header is sent.
    pub fn build(&self, body: Bytes) -> (req: OutboundRequest)
        ensures
            self.is_request(req, body),
    {
        OutboundRequest {
            method: "POST",
            uri: self.uri.clone(),
            content_type: "application/json",
            accept: "application/json",
            user_agent: self.user_agent.clone(),
            body,
        }
    }
}

/// Requests go to the host over HTTPS, at the root, with the port named exactly where
/// it is not the default: different ports go to different places.
pub proof fn requests_go_to_host_and_port(host: Seq<char>, port: u16, other: u16)
    ensures
        request_uri(host, 443) == "https://"@ + host + "/"@,
        port != 443 ==> request_uri(host, port) == "https://"@ + (host + ":"@
            + crate::text::numeral(port as nat, 10)) + "/"@,
        request_uri(host, port) == request_uri(host, other) ==> port == other,
{
    let (x, y) = (request_uri(host, port), request_uri(host, other));
    if x == y {
        reveal_strlit("https://");
        reveal_strlit("/");
        reveal_strlit(":");
        let n = ("https://"@.len() + host.len()) as int;
        assert(x.skip(n) =~= tail(port));
        assert(y.skip(n) =~= tail(other));
        if port != 443 {
            assert(tail(port)[0] == ':');
        } else {
            assert(tail(port)[0] == '/');
        }
        if other != 443 {
            assert(tail(other)[0] == ':');
        } else {
            assert(tail(other)[0] == '/');
        }
        if port != 443 {
            let (p, q) = (crate::text::decimal(port as nat), crate::text::decimal(other as nat));
            assert(tail(port).subrange(1, tail(port).len() - 1) =~= p);
            assert(tail(other).subrange(1, tail(other).len() - 1) =~= q);
            crate::text::numerals_tell_numbers_apart(port as nat, other as nat, 10);
        }
    }
}

/// What stands behind the host.
spec fn tail(port: u16) -> Seq<char> {
    if port == 443 {
        "/"@
    } else {
        ":"@ + crate::text::decimal(port as nat) + "/"@
    }
}

/// A request can be made exactly where its URI parses and the user agent may stand in a
/// header.
pub proof fn what_makes_a_template(cfg: Config)
    ensures
        RequestTemplate::flaw(cfg) is None <==> uri_parse(request_uri(cfg.host@, cfg.port)) is Ok
            && is_header_value(vstd::utf8::encode_utf8(cfg.user_agent@)),
        uri_parse(request_uri(cfg.host@, cfg.port)) matches Err(why) ==> RequestTemplate::flaw(cfg)
            == Some("cannot build URI for `"@ + authority(cfg.host@, cfg.port) + "`: "@ + why),
        uri_parse(request_uri(cfg.host@, cfg.port)) is Ok && !is_header_value(
            vstd::utf8::encode_utf8(cfg.user_agent@),
        ) ==> RequestTemplate::flaw(cfg) == Some(
            "user_agent is not a valid header value: "@ + "failed to parse header value"@,
        ),
{
}

/// A request made from the template for some settings goes to their host and port, and
/// says their user agent.
pub proof fn a_request_follows_the_settings(
    t: RequestTemplate,
    cfg: Config,
    req: OutboundRequest,
    body: Bytes,
)
    requires
        t.is_for(cfg),
        t.is_request(req, body),
    ensures
        cfg.port == 443 ==> req.uri@ == "https://"@ + cfg.host@ + "/"@,
        cfg.port != 443 ==> req.uri@ == "https://"@ + (cfg.host@ + ":"@ + crate::text::numeral(
            cfg.port as nat,
            10,
        )) + "/"@,
        req.user_agent@ == cfg.user_agent@,
        req.body == body,
{
}

/// A request carries its body to the URI and under the user agent of its template.
pub proof fn a_request_is_a_json_post(t: RequestTemplate, req: OutboundRequest, body: Bytes)
    requires
        t.is_request(req, body),
    ensures
        req.method@ == "POST"@,
        req.uri@ == t.uri@,
        req.user_agent@ == t.user_agent@,
        req.content_type@ == "application/json"@,
        req.accept@ == "application/json"@,
        req.body == body,
{
}

} // verus!
