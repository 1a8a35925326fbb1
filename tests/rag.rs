use llama_nexus::capability::{ModelConfig, ServerCapabilities};
use llama_nexus::kind::{Kind, ServerKind};
use llama_nexus::rag::merge_retrieved_context;
use llama_nexus::state::AppState;
use endpoints::chat::ChatCompletionRequestMessage;
use llama_nexus::chunk::{chunk_text, chunk_text_by_extension, point_payloads};
use llama_nexus::error::ServerError;
use llama_nexus::logging::{log_level_from_env, log_level_from_filter, log_target, LogLevel, LogTarget};
use llama_nexus::rag::{
    build_context, get_qdrant_configs, vdb_api_key, merge_retrievals, query_text, unique_points, ChatMessage,
    MergeError, RagPolicy, RagPromptBuilder, RetrievedPoint, VectorDbDefaults, VectorDbRequest,
};

fn user(text: &str) -> ChatMessage {
    ChatMessage::UserText { content: text.to_string(), name: None }
}

fn system(text: &str) -> ChatMessage {
    ChatMessage::System { content: text.to_string(), name: None }
}

fn assistant(text: &str) -> ChatMessage {
    ChatMessage::Other(ChatCompletionRequestMessage::new_assistant_message(Some(text.to_string()), None, None))
}

fn point(source: &str, score: f32) -> RetrievedPoint<f32> {
    RetrievedPoint { source: source.to_string(), score }
}

fn defaults() -> VectorDbDefaults<f32> {
    VectorDbDefaults {
        url: "http://qdrant:6333".to_string(),
        collection_name: vec!["default".to_string()],
        limit: 3,
        score_threshold: 0.5,
    }
}

fn content_of(m: &ChatMessage) -> String {
    match m {
        ChatMessage::System { content, .. } => content.clone(),
        ChatMessage::UserText { content, .. } => content.clone(),
        _ => panic!("no text"),
    }
}

#[test]
fn request_settings_with_mismatched_lengths_are_bad_requests() {
    let request = VectorDbRequest {
        url: Some("http://q".to_string()),
        collection_name: Some(vec!["a".to_string(), "b".to_string()]),
        limit: Some(vec![1]),
        score_threshold: Some(vec![0.1f32, 0.2]),
    };
    let e = get_qdrant_configs(&request, &defaults()).unwrap_err();
    assert!(matches!(e, ServerError::BadRequest(_)));
    assert_eq!(e.status_code(), 400);
}

#[test]
fn partial_request_settings_are_bad_requests() {
    let request: VectorDbRequest<f32> = VectorDbRequest {
        url: Some("http://q".to_string()),
        collection_name: None,
        limit: None,
        score_threshold: None,
    };
    assert!(matches!(get_qdrant_configs(&request, &defaults()), Err(ServerError::BadRequest(_))));
}

#[test]
fn request_settings_and_defaults() {
    let request = VectorDbRequest {
        url: Some("http://q".to_string()),
        collection_name: Some(vec!["a".to_string(), "b".to_string()]),
        limit: Some(vec![1, 2]),
        score_threshold: Some(vec![0.1f32, 0.2]),
    };
    let cs = get_qdrant_configs(&request, &defaults()).unwrap();
    assert_eq!(cs.len(), 2);
    assert_eq!(cs[1].collection_name, "b");
    assert_eq!(cs[1].limit, 2);
    assert_eq!(cs[1].score_threshold, 0.2);
    assert_eq!(cs[0].url, "http://q");
    let none: VectorDbRequest<f32> = VectorDbRequest { url: None, collection_name: None, limit: None, score_threshold: None };
    let cs = get_qdrant_configs(&none, &defaults()).unwrap();
    assert_eq!(cs.len(), 1);
    assert_eq!(cs[0].collection_name, "default");
    assert_eq!(cs[0].score_threshold, 0.5);
}

#[test]
fn empty_conversation_is_a_bad_request() {
    assert_eq!(
        query_text(&vec![], 1),
        Err(ServerError::BadRequest("Found empty chat messages".to_string()))
    );
    assert_eq!(
        query_text(&vec![system("s"), assistant("a")], 1),
        Err(ServerError::BadRequest("No user messages found".to_string()))
    );
}

#[test]
fn query_uses_last_user_messages() {
    let msgs = vec![user("one"), assistant("a"), user("two"), user("three")];
    assert_eq!(query_text(&msgs, 1), Ok("three".to_string()));
    assert_eq!(query_text(&msgs, 2), Ok("two\nthree".to_string()));
    assert_eq!(query_text(&msgs, 5), Ok("one\ntwo\nthree".to_string()));
}

#[test]
fn health_marker_only_counts_when_latest() {
    let msgs = vec![user("old"), user("ping<server-health>")];
    assert_eq!(query_text(&msgs, 3), Ok("ping".to_string()));
    let msgs = vec![user("ping<server-health>"), user("new")];
    assert_eq!(query_text(&msgs, 3), Ok("new".to_string()));
}

#[test]
fn duplicate_sources_are_kept_once() {
    let once = unique_points(vec![point("doc-1", 0.9), point("doc-1", 0.8), point("doc-2", 0.7)]);
    let sources: Vec<&str> = once.iter().map(|p| p.source.as_str()).collect();
    assert_eq!(sources, vec!["doc-1", "doc-2"]);
    assert_eq!(once[0].score, 0.9);
    let merged = merge_retrievals(vec![
        vec![point("doc-1", 0.9), point("doc-1", 0.6)],
        vec![point("doc-1", 0.7)],
        vec![point("doc-3", 0.5), point("doc-1", 0.5)],
    ]);
    assert_eq!(merged.len(), 2);
    assert_eq!(merged[0].len(), 1);
    assert_eq!(merged[1][0].source, "doc-3");
    assert_eq!(merged[1].len(), 1);
    assert_eq!(build_context(&merged), "doc-1\n\ndoc-3\n\n");
}

#[test]
fn rag_pipeline_rewrites_last_user_message() {
    let retrieved = merge_retrievals(vec![unique_points(vec![point("doc-1", 0.9), point("doc-1", 0.8)])]);
    let context = build_context(&retrieved);
    assert_eq!(context.matches("doc-1").count(), 1);
    let mut msgs = vec![user("q")];
    RagPromptBuilder::build(&mut msgs, &vec![context], true, RagPolicy::LastUserMessage, None).unwrap();
    assert_eq!(
        content_of(&msgs[0]),
        "doc-1\nAnswer the question based on the pieces of context above. The question is:\nq"
    );
}

#[test]
fn system_policy_demotes_without_system_prompt() {
    let mut a = vec![system("sys"), user("  question  ")];
    let mut b = vec![system("sys"), user("  question  ")];
    let ctx = vec!["ctx \n".to_string()];
    RagPromptBuilder::build(&mut a, &ctx, false, RagPolicy::SystemMessage, None).unwrap();
    RagPromptBuilder::build(&mut b, &ctx, true, RagPolicy::LastUserMessage, None).unwrap();
    assert_eq!(content_of(&a[0]), "sys");
    assert_eq!(content_of(&a[1]), content_of(&b[1]));
    assert_eq!(
        content_of(&a[1]),
        "ctx\nAnswer the question based on the pieces of context above. The question is:\nquestion"
    );
}

#[test]
fn system_policy_merges_into_system_message() {
    let mut msgs = vec![system(" be brief "), user("q")];
    let ctx = vec!["facts\n\n".to_string()];
    RagPromptBuilder::build(&mut msgs, &ctx, true, RagPolicy::SystemMessage, Some("Use these:".to_string())).unwrap();
    assert_eq!(content_of(&msgs[0]), "be brief\nUse these:\nfacts");
    let mut msgs = vec![user("q")];
    RagPromptBuilder::build(&mut msgs, &ctx, true, RagPolicy::SystemMessage, None).unwrap();
    assert_eq!(msgs.len(), 2);
    assert_eq!(content_of(&msgs[0]), "facts");
    assert_eq!(content_of(&msgs[1]), "q");
}

#[test]
fn merge_errors() {
    let mut empty: Vec<ChatMessage> = vec![];
    let ctx = vec!["c".to_string()];
    assert_eq!(
        RagPromptBuilder::build(&mut empty, &ctx, true, RagPolicy::SystemMessage, None),
        Err(MergeError::NoMessages)
    );
    let mut msgs = vec![user("q")];
    assert_eq!(
        RagPromptBuilder::build(&mut msgs, &vec![], true, RagPolicy::SystemMessage, None),
        Err(MergeError::Operation("No context provided.".to_string()))
    );
    let mut msgs = vec![user("q"), assistant("a")];
    let e = RagPromptBuilder::build(&mut msgs, &ctx, true, RagPolicy::LastUserMessage, None).unwrap_err();
    assert_eq!(
        e.to_string(),
        "Bad messages. The last message in the chat request should be a user message."
    );
    assert_eq!(content_of(&msgs[0]), "q");
}

#[test]
fn chunks_by_document_type() {
    let chunks = chunk_text("Some text\n\nfrom a\ndocument", "TXT", 10).unwrap();
    assert_eq!(chunks, vec!["Some text", "from a", "document"]);
    let md = chunk_text("# Title\n\nbody", "md", 100).unwrap();
    assert!(!md.is_empty());
    let e = chunk_text("x", "pdf", 10).unwrap_err();
    assert_eq!(
        e,
        ServerError::Operation("Failed to upload the target file. Only files with 'txt' and 'md' extensions are supported.".to_string())
    );
    assert!(chunk_text_by_extension("x", "TXT", 10).is_err());
}

#[test]
fn payloads_pair_embeddings_with_chunks() {
    let chunks = vec!["a".to_string(), "b".to_string(), "c".to_string()];
    let p = point_payloads(&vec![2, 0], &chunks);
    assert_eq!(p, vec![(2, "c".to_string()), (0, "a".to_string())]);
}

#[test]
fn log_levels_and_targets() {
    assert_eq!(log_level_from_env(Some("debug")), LogLevel::Debug);
    assert_eq!(log_level_from_env(Some("loud")), LogLevel::Info);
    assert_eq!(log_level_from_env(None), LogLevel::Info);
    assert_eq!(log_level_from_filter("stdout=DEBUG"), LogLevel::Debug);
    assert_eq!(log_level_from_filter("Warn"), LogLevel::Warn);
    assert_eq!(log_level_from_filter(""), LogLevel::Info);
    assert_eq!(log_target("stdout", None), Ok(LogTarget::Stdout));
    assert_eq!(log_target("file", Some("a.log")), Ok(LogTarget::File("a.log".to_string())));
    assert_eq!(log_target("both", None), Err(ServerError::Operation("Missing log file path".to_string())));
    assert_eq!(
        log_target("syslog", None),
        Err(ServerError::Operation("Invalid log destination: syslog. Valid values are 'stdout', 'file', or 'both'".to_string()))
    );
}

#[test]
fn request_api_key_overrides_environment() {
    assert_eq!(vdb_api_key(Some("req".to_string()), Some("env".to_string())), Some("req".to_string()));
    assert_eq!(vdb_api_key(None, Some("env".to_string())), Some("env".to_string()));
    assert_eq!(vdb_api_key(Some(String::new()), Some("env".to_string())), None);
    assert_eq!(vdb_api_key(None, None), None);
}

#[test]
fn merging_retrieved_context_into_a_conversation() {
    let retrieved = vec![vec![point("doc-1", 0.9)]];
    let empty_state = AppState::new();
    let mut msgs = vec![user("q")];
    merge_retrieved_context(&empty_state, &mut msgs, &retrieved, RagPolicy::LastUserMessage, None).unwrap();
    assert_eq!(
        content_of(&msgs[0]),
        "doc-1\nAnswer the question based on the pieces of context above. The question is:\nq"
    );
    let mut msgs = vec![user("q")];
    assert!(matches!(
        merge_retrieved_context(&empty_state, &mut msgs, &retrieved, RagPolicy::SystemMessage, None),
        Err(ServerError::Operation(_))
    ));
    let mut msgs = vec![user("q"), assistant("a")];
    assert_eq!(
        merge_retrieved_context(&empty_state, &mut msgs, &retrieved, RagPolicy::LastUserMessage, None),
        Err(ServerError::Operation(
            "Bad messages. The last message in the chat request should be a user message.".to_string()
        ))
    );
    let mut state = AppState::new();
    let c = state.new_server("http://c".to_string(), ServerKind::single(Kind::Chat)).unwrap();
    let caps = ServerCapabilities {
        chat_model: Some(ModelConfig { name: "m".to_string(), prompt_template: Some("chatml".to_string()) }),
        embedding_model: None,
        image_model: None,
        tts_model: None,
        translate_model: None,
        transcribe_model: None,
    };
    state.admit_downstream_server(c, caps).unwrap();
    let mut msgs = vec![user("q")];
    merge_retrieved_context(&state, &mut msgs, &retrieved, RagPolicy::SystemMessage, None).unwrap();
    assert_eq!(content_of(&msgs[0]), "doc-1");
    assert_eq!(content_of(&msgs[1]), "q");
    let mut msgs: Vec<ChatMessage> = vec![];
    assert_eq!(
        merge_retrieved_context(&state, &mut msgs, &retrieved, RagPolicy::SystemMessage, None),
        Err(ServerError::BadRequest("Found empty chat messages".to_string()))
    );
}

#[test]
fn zero_chunk_capacity_is_refused() {
    assert_eq!(
        chunk_text(" a", "txt", 0),
        Err(ServerError::BadRequest("The chunk capacity must be at least 1.".to_string()))
    );
    assert_eq!(
        chunk_text_by_extension(" a", "md", 0),
        Err(ServerError::BadRequest("The chunk capacity must be at least 1.".to_string()))
    );
    assert!(matches!(chunk_text(" a", "pdf", 0), Err(ServerError::Operation(_))));
    let chunks = chunk_text("alpha beta gamma", "txt", 6).unwrap();
    assert!(chunks.iter().all(|c| !c.is_empty() && c.chars().count() <= 6));
}
