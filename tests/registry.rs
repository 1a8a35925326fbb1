use llama_nexus::capability::{check_info_status, verify_capabilities, ModelConfig, ServerCapabilities};
use llama_nexus::error::ServerError;
use llama_nexus::kind::{format_server_id, kinds_of_server_id, Kind, ServerKind};
use llama_nexus::proxy::{route, Endpoint};
use llama_nexus::registry::{is_valid_backend_url, Registry};
use llama_nexus::state::AppState;

fn model(template: Option<&str>) -> Option<ModelConfig> {
    Some(ModelConfig { name: "m".to_string(), prompt_template: template.map(|t| t.to_string()) })
}

fn caps_chat(template: Option<&str>) -> ServerCapabilities {
    ServerCapabilities {
        chat_model: model(template),
        embedding_model: None,
        image_model: None,
        tts_model: None,
        translate_model: None,
        transcribe_model: None,
    }
}

fn caps_embeddings() -> ServerCapabilities {
    ServerCapabilities {
        chat_model: None,
        embedding_model: model(None),
        image_model: None,
        tts_model: None,
        translate_model: None,
        transcribe_model: None,
    }
}

fn chat_kind() -> ServerKind {
    ServerKind::single(Kind::Chat)
}

fn chat_and_embeddings() -> ServerKind {
    ServerKind::single(Kind::Chat).with(Kind::Embeddings)
}

#[test]
fn kind_tokens_round_trip() {
    let k = chat_and_embeddings().with(Kind::Tts);
    assert_eq!(k.to_string(), "chat-embeddings-tts");
    assert_eq!(ServerKind::parse("chat-embeddings-tts"), Ok(k));
    assert_eq!(ServerKind::parse("tts-chat-embeddings"), Ok(k));
    for i in 0..6 {
        let single = ServerKind::single(Kind::at(i));
        assert_eq!(ServerKind::parse(&single.to_string()), Ok(single));
    }
}

#[test]
fn unknown_kind_token_is_refused() {
    assert_eq!(
        ServerKind::parse("chat-video"),
        Err(ServerError::InvalidServerKind("video".to_string()))
    );
    assert_eq!(Kind::from_token("CHAT"), None);
    assert_eq!(Kind::from_token("transcribe"), Some(Kind::Transcribe));
}

#[test]
fn server_id_names_its_kinds() {
    let k = chat_and_embeddings();
    let id = format_server_id(&k, 12);
    assert_eq!(id, "chat-embeddings-server-12");
    assert_eq!(kinds_of_server_id(&id), Ok(k));
    assert_eq!(kinds_of_server_id("image-server-x-server-3"), Ok(ServerKind::single(Kind::Image)));
    assert!(matches!(kinds_of_server_id("bogus-server-1"), Err(ServerError::InvalidServerKind(_))));
}

#[test]
fn backend_urls_are_checked() {
    assert!(is_valid_backend_url("http://b1:9/"));
    assert!(is_valid_backend_url("https://x"));
    assert!(!is_valid_backend_url("http://"));
    assert!(!is_valid_backend_url("ftp://host"));
}

#[test]
fn register_and_dispatch() {
    let mut state = AppState::new();
    let server = state.new_server("http://b1:9/".to_string(), chat_kind()).unwrap();
    assert_eq!(server.id, "chat-server-0");
    let caps = caps_chat(Some("llama-3-chat"));
    assert_eq!(state.admit_downstream_server(server, caps), Ok(()));
    let listed = state.list_downstream_servers();
    assert_eq!(listed.len(), 1);
    assert_eq!(listed[0].0, Kind::Chat);
    assert_eq!(listed[0].1[0].url, "http://b1:9/");
    assert_eq!(
        route(&mut state, Endpoint::ChatCompletions),
        Ok("http://b1:9/v1/chat/completions".to_string())
    );
}

#[test]
fn empty_pool_reports_not_found() {
    let mut state = AppState::new();
    let e = route(&mut state, Endpoint::Embeddings).unwrap_err();
    assert_eq!(e, ServerError::NotFoundServer("No embeddings server available".to_string()));
    assert_eq!(e.status_code(), 404);
    assert_eq!(e.message(), "No embeddings server available");
    let e = state.next_server(Kind::Tts).unwrap_err();
    assert_eq!(e, ServerError::NotFoundServer("No tts server available".to_string()));
}

#[test]
fn load_balancing_spreads_requests() {
    let mut state = AppState::new();
    let b1 = state.new_server("http://b1:9".to_string(), chat_kind()).unwrap();
    let b2 = state.new_server("http://b2:9".to_string(), chat_kind()).unwrap();
    state.register_downstream_server(b1).unwrap();
    state.register_downstream_server(b2).unwrap();
    let first = state.next_server(Kind::Chat).unwrap();
    let second = state.next_server(Kind::Chat).unwrap();
    let third = state.next_server(Kind::Chat).unwrap();
    assert_eq!(first, "http://b1:9");
    assert_eq!(second, "http://b2:9");
    assert_eq!(third, "http://b1:9");
    let listed = state.list_downstream_servers();
    let loads: Vec<u64> = listed[0].1.iter().map(|s| s.connections).collect();
    assert_eq!(loads, vec![2, 1]);
}

#[test]
fn successive_selections_differ() {
    let mut registry = Registry::new();
    for url in ["http://a", "http://b", "http://c"] {
        let s = registry.new_server(url.to_string(), chat_kind()).unwrap();
        registry.register(s).unwrap();
    }
    let one = registry.select(Kind::Chat).unwrap();
    let two = registry.select(Kind::Chat).unwrap();
    assert_ne!(one, two);
}

#[test]
fn loads_never_decrease() {
    let mut registry = Registry::new();
    let s = registry.new_server("http://a".to_string(), chat_and_embeddings()).unwrap();
    registry.register(s).unwrap();
    let mut last = 0;
    for _ in 0..5 {
        registry.select(Kind::Embeddings).unwrap();
        registry.select(Kind::Chat).unwrap();
        let now = registry.pool_of(Kind::Chat)[0].connections;
        assert!(now >= last);
        last = now;
    }
    assert_eq!(last, 10);
}

#[test]
fn verification_rejection_leaves_no_trace() {
    let mut state = AppState::new();
    let server = state.new_server("http://b1:9/".to_string(), chat_kind()).unwrap();
    let e = state.admit_downstream_server(server, caps_embeddings()).unwrap_err();
    assert_eq!(
        e,
        ServerError::Operation("You are trying to register a chat server. However, the server does not support `chat`. Please check the server kind.".to_string())
    );
    assert_eq!(e.status_code(), 500);
    assert!(state.list_downstream_servers().is_empty());
    assert!(state.chat_supports_system_prompt().is_err());
}

#[test]
fn capability_check_names_first_missing_kind() {
    let k = ServerKind::single(Kind::Tts).with(Kind::Image);
    let e = verify_capabilities(&k, &caps_chat(None)).unwrap_err();
    assert_eq!(
        e,
        ServerError::Operation("You are trying to register an image server. However, the server does not support `image`. Please check the server kind.".to_string())
    );
    assert_eq!(verify_capabilities(&chat_kind(), &caps_chat(None)), Ok(()));
}

#[test]
fn info_status_is_checked() {
    assert_eq!(check_info_status(&chat_kind(), 200, "200 OK"), Ok(()));
    assert_eq!(
        check_info_status(&chat_and_embeddings(), 404, "404 Not Found"),
        Err(ServerError::Operation("Failed to verify the chat-embeddings downstream server: 404 Not Found".to_string()))
    );
}

#[test]
fn unregister_by_id() {
    let mut state = AppState::new();
    let server = state.new_server("http://b1:9/".to_string(), chat_and_embeddings()).unwrap();
    let id = server.id.clone();
    let mut caps = caps_chat(Some("chatml"));
    caps.embedding_model = model(None);
    state.admit_downstream_server(server, caps).unwrap();
    assert_eq!(state.list_downstream_servers().len(), 2);
    assert_eq!(state.unregister_downstream_server(&id), Ok(()));
    assert!(state.list_downstream_servers().is_empty());
    assert!(state.chat_supports_system_prompt().is_err());
    assert_eq!(
        state.unregister_downstream_server(&id),
        Err(ServerError::NotFoundServer(format!("Server {} not found", id)))
    );
    assert!(matches!(
        state.unregister_downstream_server("nope-server-1"),
        Err(ServerError::InvalidServerKind(_))
    ));
}

#[test]
fn register_then_unregister_restores_listing() {
    let mut state = AppState::new();
    let a = state.new_server("http://a".to_string(), chat_kind()).unwrap();
    state.register_downstream_server(a).unwrap();
    let before: Vec<(Kind, Vec<String>)> = state
        .list_downstream_servers()
        .into_iter()
        .map(|(k, v)| (k, v.into_iter().map(|s| s.id).collect()))
        .collect();
    let b = state.new_server("http://b".to_string(), chat_and_embeddings()).unwrap();
    let id = b.id.clone();
    state.register_downstream_server(b).unwrap();
    state.unregister_downstream_server(&id).unwrap();
    let after: Vec<(Kind, Vec<String>)> = state
        .list_downstream_servers()
        .into_iter()
        .map(|(k, v)| (k, v.into_iter().map(|s| s.id).collect()))
        .collect();
    assert_eq!(before, after);
}

#[test]
fn registration_is_validated() {
    let mut registry = Registry::new();
    assert!(matches!(
        registry.new_server("http://a".to_string(), ServerKind::empty()),
        Err(ServerError::BadRequest(_))
    ));
    assert!(matches!(
        registry.new_server("b1:9".to_string(), chat_kind()),
        Err(ServerError::BadRequest(_))
    ));
    let s = registry.new_server("http://a".to_string(), chat_kind()).unwrap();
    let dup = llama_nexus::registry::Server {
        id: s.id.clone(),
        url: "http://other".to_string(),
        kind: chat_kind(),
        connections: 0,
    };
    registry.register(s).unwrap();
    assert!(matches!(registry.register(dup), Err(ServerError::BadRequest(_))));
    assert_eq!(registry.list().len(), 1);
}

#[test]
fn system_prompt_support_follows_first_chat_backend() {
    let mut state = AppState::new();
    let e = state.new_server("http://e".to_string(), ServerKind::single(Kind::Embeddings)).unwrap();
    state.admit_downstream_server(e, caps_embeddings()).unwrap();
    assert!(matches!(state.chat_supports_system_prompt(), Err(ServerError::Operation(_))));
    let c = state.new_server("http://c".to_string(), chat_kind()).unwrap();
    state.admit_downstream_server(c, caps_chat(Some("mistral-instruct"))).unwrap();
    assert_eq!(state.chat_supports_system_prompt(), Ok(false));
}

#[test]
fn pools_hold_only_backends_of_their_kind() {
    let mut state = AppState::new();
    let a = state.new_server("http://a".to_string(), chat_and_embeddings()).unwrap();
    let b = state.new_server("http://b".to_string(), ServerKind::single(Kind::Image)).unwrap();
    let c = state.new_server("http://c".to_string(), ServerKind::single(Kind::Embeddings)).unwrap();
    state.register_downstream_server(a).unwrap();
    state.register_downstream_server(b).unwrap();
    state.register_downstream_server(c).unwrap();
    let listed = state.list_downstream_servers();
    let kinds: Vec<Kind> = listed.iter().map(|(k, _)| *k).collect();
    assert_eq!(kinds, vec![Kind::Chat, Kind::Embeddings, Kind::Image]);
    for (kind, servers) in listed.iter() {
        for s in servers {
            assert!(s.kind.contains(*kind));
        }
    }
    assert_eq!(listed[1].1.len(), 2);
}

#[test]
fn system_prompt_support_is_read_from_the_template() {
    let mut state = AppState::new();
    let c = state.new_server("http://c".to_string(), chat_kind()).unwrap();
    state.admit_downstream_server(c, caps_chat(Some("llama-3-chat"))).unwrap();
    assert_eq!(state.chat_supports_system_prompt(), Ok(true));
    let mut state = AppState::new();
    let c = state.new_server("http://c".to_string(), chat_kind()).unwrap();
    state.admit_downstream_server(c, caps_chat(Some("no-such-template"))).unwrap();
    assert!(matches!(state.chat_supports_system_prompt(), Err(ServerError::Operation(_))));
}

#[test]
fn ids_must_name_their_kinds() {
    let mut registry = Registry::new();
    let foreign = llama_nexus::registry::Server {
        id: "abc".to_string(),
        url: "http://a".to_string(),
        kind: chat_kind(),
        connections: 0,
    };
    assert!(matches!(registry.register(foreign), Err(ServerError::BadRequest(_))));
    let mismatched = llama_nexus::registry::Server {
        id: "embeddings-server-1".to_string(),
        url: "http://a".to_string(),
        kind: chat_kind(),
        connections: 0,
    };
    assert!(matches!(registry.register(mismatched), Err(ServerError::BadRequest(_))));
    assert!(registry.list().is_empty());
}

#[test]
fn backend_stays_listed_through_other_operations() {
    let mut state = AppState::new();
    let a = state.new_server("http://a".to_string(), chat_and_embeddings()).unwrap();
    let a_id = a.id.clone();
    state.register_downstream_server(a).unwrap();
    let b = state.new_server("http://b".to_string(), chat_kind()).unwrap();
    let b_id = b.id.clone();
    state.register_downstream_server(b).unwrap();
    state.next_server(Kind::Chat).unwrap();
    state.next_server(Kind::Embeddings).unwrap();
    state.unregister_downstream_server(&b_id).unwrap();
    let listed = state.list_downstream_servers();
    assert_eq!(listed.len(), 2);
    for (_, servers) in listed.iter() {
        assert!(servers.iter().any(|s| s.id == a_id && s.url == "http://a"));
    }
}
