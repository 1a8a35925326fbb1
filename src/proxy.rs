//! Dispatch decisions of the proxy: which pool serves an endpoint, the URL a
//! request is forwarded to, which headers pass, and the content type of the reply.

use crate::error::ServerError;
use crate::kind::Kind;
use crate::registry::{least_loaded, no_server_message, selected};
use crate::state::AppState;
use crate::text::{chars_of, str_eq, substring};
use vstd::prelude::*;

verus! {

/// A public inference endpoint of the gateway.
#[derive(Clone, Copy, Debug, PartialEq, Eq, Structural)]
pub enum Endpoint {
    ChatCompletions,
    Embeddings,
    AudioTranscriptions,
    AudioTranslations,
    AudioSpeech,
    ImageGenerations,
    ImageEdits,
}

impl Endpoint {
    /// The kind of backend that serves the endpoint.
    pub open spec fn kind_spec(self) -> Kind {
        match self {
            Endpoint::ChatCompletions => Kind::Chat,
            Endpoint::Embeddings => Kind::Embeddings,
            Endpoint::AudioTranscriptions => Kind::Transcribe,
            Endpoint::AudioTranslations => Kind::Translate,
            Endpoint::AudioSpeech => Kind::Tts,
            Endpoint::ImageGenerations => Kind::Image,
            Endpoint::ImageEdits => Kind::Image,
        }
    }

    /// The kind of backend that serves the endpoint.
    pub fn kind(self) -> (r: Kind)
        ensures
            r == self.kind_spec(),
    {
        match self {
            Endpoint::ChatCompletions => Kind::Chat,
            Endpoint::Embeddings => Kind::Embeddings,
            Endpoint::AudioTranscriptions => Kind::Transcribe,
            Endpoint::AudioTranslations => Kind::Translate,
            Endpoint::AudioSpeech => Kind::Tts,
            Endpoint::ImageGenerations => Kind::Image,
            Endpoint::ImageEdits => Kind::Image,
        }
    }

    /// The endpoint's path below a backend's base URL.
    pub open spec fn path_spec(self) -> Seq<char> {
        match self {
            Endpoint::ChatCompletions => "v1/chat/completions"@,
            Endpoint::Embeddings => "v1/embeddings"@,
            Endpoint::AudioTranscriptions => "v1/audio/transcriptions"@,
            Endpoint::AudioTranslations => "v1/audio/translations"@,
            Endpoint::AudioSpeech => "v1/audio/speech"@,
            Endpoint::ImageGenerations => "v1/images/generations"@,
            Endpoint::ImageEdits => "v1/images/edits"@,
        }
    }

    /// The endpoint's path below a backend's base URL.
    pub fn path(self) -> (r: &'static str)
        ensures
            r@ == self.path_spec(),
    {
        match self {
            Endpoint::ChatCompletions => "v1/chat/completions",
            Endpoint::Embeddings => "v1/embeddings",
            Endpoint::AudioTranscriptions => "v1/audio/transcriptions",
            Endpoint::AudioTranslations => "v1/audio/translations",
            Endpoint::AudioSpeech => "v1/audio/speech",
            Endpoint::ImageGenerations => "v1/images/generations",
            Endpoint::ImageEdits => "v1/images/edits",
        }
    }
}

/// `s` without its trailing slashes.
pub open spec fn trim_trailing_slashes(s: Seq<char>) -> Seq<char>
    decreases s.len(),
{
    if s.len() > 0 && s.last() == '/' {
        trim_trailing_slashes(s.drop_last())
    } else {
        s
    }
}

/// The URL of `path` below the base URL `base`; a trailing slash of `base` is not
/// significant.
pub open spec fn backend_url_spec(base: Seq<char>, path: Seq<char>) -> Seq<char> {
    trim_trailing_slashes(base) + seq!['/'] + path
}

proof fn lemma_trim_prefix(s: Seq<char>, n: int)
    requires
        0 <= n <= s.len(),
        forall|j: int| n <= j < s.len() ==> s[j] == '/',
        n == 0 || s[n - 1] != '/',
    ensures
        trim_trailing_slashes(s) == s.take(n),
    decreases s.len(),
{
    if s.len() > n {
        lemma_trim_prefix(s.drop_last(), n);
        assert(s.drop_last().take(n) =~= s.take(n));
    } else {
        assert(s.take(n) =~= s);
    }
}

/// The URL of `path` below the base URL `base`.
pub fn backend_url(base: &str, path: &str) -> (r: String)
    ensures
        r@ == backend_url_spec(base@, path@),
{
    let cs = chars_of(base);
    let mut n = cs.len();
    while n > 0 && cs[n - 1] == '/'
        invariant
            cs@ == base@,
            n <= cs.len(),
            forall|j: int| n <= j < cs.len() ==> cs@[j] == '/',
        decreases n,
    {
        n = n - 1;
    }
    proof {
        lemma_trim_prefix(base@, n as int);
        reveal_strlit("/");
        assert("/"@ =~= seq!['/']);
    }
    let mut r = substring(base, 0, n);
    r.append("/");
    r.append(path);
    r
}

/// `url` followed by the query string `query` of the inbound request, when it has one.
pub fn with_query(url: String, query: Option<&str>) -> (r: String)
    ensures
        match query {
            Some(q) => if q@.len() > 0 {
                r@ == url@ + "?"@ + q@
            } else {
                r@ == url@
            },
            None => r@ == url@,
        },
{
    let mut r = url;
    match query {
        Some(q) => {
            if q.unicode_len() > 0 {
                r.append("?");
                r.append(q);
            }
        },
        None => {},
    }
    r
}

/// Picks the backend for a request to `endpoint` and returns the URL to forward it to.
pub fn route(state: &mut AppState, endpoint: Endpoint) -> (r: Result<String, ServerError>)
    requires
        old(state).wf(),
    ensures
        final(state).wf(),
        final(state).reports() == old(state).reports(),
        final(state).nonce() == old(state).nonce(),
        least_loaded(old(state).servers(), endpoint.kind_spec()) < 0 ==> (r matches Err(
            ServerError::NotFoundServer(m),
        ) && m@ == no_server_message(endpoint.kind_spec()) && final(state).servers() == old(
            state,
        ).servers()),
        least_loaded(old(state).servers(), endpoint.kind_spec()) >= 0 ==> (r matches Ok(u)
            && u@ == backend_url_spec(
            old(state).servers()[least_loaded(old(state).servers(), endpoint.kind_spec())].url,
            endpoint.path_spec(),
        ) && final(state).servers() == selected(
            old(state).servers(),
            least_loaded(old(state).servers(), endpoint.kind_spec()),
        )),
{
    let base = match state.next_server(endpoint.kind()) {
        Ok(base) => base,
        Err(e) => {
            return Err(e);
        },
    };
    Ok(backend_url(base.as_str(), endpoint.path()))
}

/// How the content type of a relayed reply is set.
#[derive(Clone, Copy, Debug, PartialEq, Eq, Structural)]
pub enum ReplyContentType {
    /// `text/event-stream`, for streamed chat replies.
    EventStream,
    /// `application/json`.
    Json,
    /// The backend's own headers are kept.
    Backend,
}

/// The content type of the reply to a request to `endpoint`; `stream` is the
/// request's streaming flag, where it has one.
pub open spec fn reply_content_type_spec(endpoint: Endpoint, stream: Option<bool>) -> ReplyContentType {
    match endpoint {
        Endpoint::ChatCompletions => if stream == Some(true) {
            ReplyContentType::EventStream
        } else {
            ReplyContentType::Json
        },
        Endpoint::AudioSpeech => ReplyContentType::Backend,
        _ => ReplyContentType::Json,
    }
}

/// The content type of the reply to a request to `endpoint`.
pub fn reply_content_type(endpoint: Endpoint, stream: Option<bool>) -> (r: ReplyContentType)
    ensures
        r == reply_content_type_spec(endpoint, stream),
{
    match endpoint {
        Endpoint::ChatCompletions => match stream {
            Some(true) => ReplyContentType::EventStream,
            _ => ReplyContentType::Json,
        },
        Endpoint::AudioSpeech => ReplyContentType::Backend,
        _ => ReplyContentType::Json,
    }
}

impl ReplyContentType {
    /// The header value to set, or `None` to keep the backend's.
    pub fn header_value(self) -> (r: Option<&'static str>)
        ensures
            self == ReplyContentType::EventStream ==> (r matches Some(v) && v@ == "text/event-stream"@),
            self == ReplyContentType::Json ==> (r matches Some(v) && v@ == "application/json"@),
            self == ReplyContentType::Backend ==> r is None,
    {
        match self {
            ReplyContentType::EventStream => Some("text/event-stream"),
            ReplyContentType::Json => Some("application/json"),
            ReplyContentType::Backend => None,
        }
    }
}

/// The hop-by-hop header names, which concern one connection and are not forwarded.
pub open spec fn hop_by_hop_names() -> Seq<Seq<char>> {
    seq![
        "connection"@,
        "keep-alive"@,
        "proxy-authenticate"@,
        "proxy-authorization"@,
        "te"@,
        "trailer"@,
        "transfer-encoding"@,
        "upgrade"@,
    ]
}

/// Whether the lowercase header name `name` is hop-by-hop.
pub fn is_hop_by_hop(name: &str) -> (r: bool)
    ensures
        r == hop_by_hop_names().contains(name@),
{
    let names: [&str; 8] = [
        "connection",
        "keep-alive",
        "proxy-authenticate",
        "proxy-authorization",
        "te",
        "trailer",
        "transfer-encoding",
        "upgrade",
    ];
    let ghost hs = hop_by_hop_names();
    assert(names@.map_values(|s: &str| s@) =~= hs);
    let mut i: usize = 0;
    while i < 8
        invariant
            i <= 8,
            hs == hop_by_hop_names(),
            names@.map_values(|s: &str| s@) == hs,
            forall|j: int| 0 <= j < i ==> hs[j] != name@,
        decreases 8 - i,
    {
        assert(names@[i as int]@ == hs[i as int]);
        if str_eq(names[i], name) {
            assert(hs[i as int] == name@);
            return true;
        }
        i = i + 1;
    }
    false
}

/// The request id carried by the `x-request-id` header, or `unknown` without one.
pub fn request_id(header: Option<&str>) -> (r: String)
    ensures
        header matches Some(h) ==> r@ == h@,
        header is None ==> r@ == "unknown"@,
{
    match header {
        Some(h) => String::from_str(h),
        None => String::from_str("unknown"),
    }
}

} // verus!
