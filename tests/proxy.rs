use llama_nexus::error::{bad_request, internal_server_error, invalid_endpoint, not_implemented, ServerError};
use llama_nexus::proxy::{backend_url, is_hop_by_hop, reply_content_type, request_id, with_query, Endpoint, ReplyContentType};

#[test]
fn trailing_slash_is_not_significant() {
    assert_eq!(backend_url("http://b1:9/", "v1/info"), "http://b1:9/v1/info");
    assert_eq!(backend_url("http://b1:9", "v1/info"), "http://b1:9/v1/info");
    assert_eq!(backend_url("http://b1:9//", "v1/models"), "http://b1:9/v1/models");
}

#[test]
fn streaming_chat_replies_are_event_streams() {
    let streamed = reply_content_type(Endpoint::ChatCompletions, Some(true));
    assert_eq!(streamed, ReplyContentType::EventStream);
    assert_eq!(streamed.header_value(), Some("text/event-stream"));
    let plain = reply_content_type(Endpoint::ChatCompletions, Some(false));
    assert_eq!(plain.header_value(), Some("application/json"));
    assert_eq!(reply_content_type(Endpoint::ChatCompletions, None), ReplyContentType::Json);
    assert_eq!(reply_content_type(Endpoint::AudioSpeech, None), ReplyContentType::Backend);
    assert_eq!(ReplyContentType::Backend.header_value(), None);
    assert_eq!(reply_content_type(Endpoint::Embeddings, Some(true)), ReplyContentType::Json);
}

#[test]
fn endpoint_paths_and_kinds() {
    assert_eq!(Endpoint::AudioTranscriptions.path(), "v1/audio/transcriptions");
    assert_eq!(Endpoint::ImageEdits.kind(), llama_nexus::kind::Kind::Image);
    assert_eq!(Endpoint::AudioTranslations.kind(), llama_nexus::kind::Kind::Translate);
}

#[test]
fn hop_by_hop_headers_are_dropped() {
    assert!(is_hop_by_hop("connection"));
    assert!(is_hop_by_hop("transfer-encoding"));
    assert!(!is_hop_by_hop("content-type"));
    assert!(!is_hop_by_hop("x-request-id"));
}

#[test]
fn request_id_defaults_to_unknown() {
    assert_eq!(request_id(Some("abc")), "abc");
    assert_eq!(request_id(None), "unknown");
}

#[test]
fn error_statuses_and_texts() {
    assert_eq!(ServerError::BadRequest("x".into()).status_code(), 400);
    assert_eq!(ServerError::InvalidServerKind("x".into()).status_code(), 400);
    assert_eq!(ServerError::FailedToLoadConfig("x".into()).status_code(), 400);
    assert_eq!(ServerError::Operation("x".into()).status_code(), 500);
    assert_eq!(ServerError::NotFoundServer("x".into()).status_code(), 404);
    assert_eq!(ServerError::BadRequest("oops".into()).to_string(), "Bad request: oops");
    assert_eq!(ServerError::InvalidServerKind("foo".into()).to_string(), "Invalid server kind: foo");
    assert_eq!(ServerError::SocketAddr("a".into()).to_string(), "Failed to parse socket address: a");
    assert_eq!(ServerError::ArgumentError("a".into()).to_string(), "a");
}

#[test]
fn error_pages() {
    assert_eq!(bad_request(""), "400 Bad Request");
    assert_eq!(bad_request("no body"), "400 Bad Request: no body");
    assert_eq!(internal_server_error("boom"), "500 Internal Server Error: boom");
    assert_eq!(invalid_endpoint(""), "404 The requested service endpoint is not found");
    assert_eq!(not_implemented(), "501 Not Implemented");
}

#[test]
fn inbound_query_is_kept() {
    assert_eq!(with_query("http://b/v1/audio/speech".to_string(), Some("a=1")), "http://b/v1/audio/speech?a=1");
    assert_eq!(with_query("http://b/x".to_string(), Some("")), "http://b/x");
    assert_eq!(with_query("http://b/x".to_string(), None), "http://b/x");
}
