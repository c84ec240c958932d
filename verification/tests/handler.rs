use llmtrace::handler::{self, CallKind, UpstreamOutcome};
use llmtrace::{SpanStatus, SpanStore};

#[test]
fn scenario_generate_transport_failure() {
    let mut st = SpanStore::new();
    let id = handler::start_call(&mut st, CallKind::Generate, String::from("llama3"));
    let s = st.get(id).expect("span visible while running");
    assert!(matches!(s.status, SpanStatus::Running { .. }));
    assert_eq!(s.name, "ollama-generate");
    assert_eq!(s.metadata.model.as_deref(), Some("llama3"));
    let outcome = UpstreamOutcome::TransportError { detail: String::from("operation timed out") };
    let ok = handler::finish_call(&mut st, id, &outcome);
    assert!(!ok, "the inbound caller must get a failure signal, no body");
    match &st.get(id).unwrap().status {
        SpanStatus::Failed { error, .. } => {
            assert!(error.starts_with("Request failed:"), "got: {error}");
            assert!(error.contains("operation timed out"));
        },
        _ => panic!("span must end Failed"),
    }
}

#[test]
fn scenario_chat_backend_error() {
    let mut st = SpanStore::new();
    let id = handler::start_call(&mut st, CallKind::Chat, String::from("llama3"));
    assert_eq!(st.get(id).unwrap().name, "ollama-chat");
    let outcome = UpstreamOutcome::BackendError { status: 500, body: String::from("oom") };
    let ok = handler::finish_call(&mut st, id, &outcome);
    assert!(!ok);
    match &st.get(id).unwrap().status {
        SpanStatus::Failed { error, .. } => {
            assert!(error.contains("500"), "got: {error}");
            assert!(error.contains("oom"), "got: {error}");
        },
        _ => panic!("span must end Failed"),
    }
}

#[test]
fn successful_call_records_tokens_and_completes() {
    let mut st = SpanStore::new();
    let id = handler::start_call(&mut st, CallKind::Generate, String::from("llama3"));
    let outcome = UpstreamOutcome::Success { input_tokens: Some(12), output_tokens: Some(34) };
    let ok = handler::finish_call(&mut st, id, &outcome);
    assert!(ok, "only a success owes the caller the backend body");
    let s = st.get(id).unwrap();
    assert!(matches!(s.status, SpanStatus::Completed { .. }));
    assert_eq!(s.metadata.input_tokens, Some(12));
    assert_eq!(s.metadata.output_tokens, Some(34));
    assert_eq!(s.metadata.model.as_deref(), Some("llama3"));
}

#[test]
fn parse_failure_message_has_its_prefix() {
    let mut st = SpanStore::new();
    let id = handler::start_call(&mut st, CallKind::Chat, String::from("m"));
    let outcome = UpstreamOutcome::ParseError { detail: String::from("missing field") };
    assert!(!handler::finish_call(&mut st, id, &outcome));
    match &st.get(id).unwrap().status {
        SpanStatus::Failed { error, .. } => {
            assert_eq!(error, "Failed to parse response: missing field");
        },
        _ => panic!("span must end Failed"),
    }
}

#[test]
fn each_call_starts_its_own_trace() {
    let mut st = SpanStore::new();
    let a = handler::start_call(&mut st, CallKind::Generate, String::from("m"));
    let b = handler::start_call(&mut st, CallKind::Generate, String::from("m"));
    assert_ne!(a, b);
    let ta = st.get(a).unwrap().trace_id;
    let tb = st.get(b).unwrap().trace_id;
    assert_ne!(ta, tb);
    assert_eq!(st.spans_for_trace(ta), vec![a]);
    assert_eq!(st.spans_for_trace(tb), vec![b]);
}

#[test]
fn error_messages_are_exact() {
    let transport = UpstreamOutcome::TransportError { detail: String::from("no route") };
    assert_eq!(handler::error_message(&transport), "Request failed: no route");
    let backend = UpstreamOutcome::BackendError { status: 502, body: String::from("bad gateway") };
    assert_eq!(handler::error_message(&backend), "Ollama error 502: bad gateway");
    let parse = UpstreamOutcome::ParseError { detail: String::from("eof") };
    assert_eq!(handler::error_message(&parse), "Failed to parse response: eof");
    let zero = UpstreamOutcome::BackendError { status: 0, body: String::from("x") };
    assert_eq!(handler::error_message(&zero), "Ollama error 0: x");
    let max = UpstreamOutcome::BackendError { status: 65535, body: String::from("x") };
    assert_eq!(handler::error_message(&max), "Ollama error 65535: x");
}

#[test]
fn missing_span_leaves_store_unchanged() {
    let mut st = SpanStore::new();
    let outcome = UpstreamOutcome::Success { input_tokens: None, output_tokens: None };
    assert!(handler::finish_call(&mut st, 123, &outcome));
    assert_eq!(st.span_count(), 0);
    let failure = UpstreamOutcome::TransportError { detail: String::from("x") };
    assert!(!handler::finish_call(&mut st, 123, &failure));
    assert_eq!(st.span_count(), 0);
}

#[test]
fn span_new_starts_running_with_empty_metadata() {
    let sp = llmtrace::Span::new(7, Some(3), String::from("op"));
    assert_eq!(sp.trace_id, 7);
    assert_eq!(sp.parent_span_id, Some(3));
    assert_eq!(sp.name, "op");
    assert!(matches!(sp.status, SpanStatus::Running { .. }));
    assert!(sp.metadata.model.is_none());
    assert!(sp.metadata.input_tokens.is_none());
    assert!(sp.metadata.output_tokens.is_none());
}
