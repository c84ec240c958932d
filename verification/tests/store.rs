use llmtrace::{Span, SpanFilter, SpanMetadata, SpanStatus, SpanStore};

fn running_span(id: u64, trace_id: u64, name: &str, model: Option<&str>, started_at: i64) -> Span {
    Span {
        id,
        trace_id,
        parent_span_id: None,
        name: String::from(name),
        status: SpanStatus::Running { started_at },
        metadata: SpanMetadata {
            model: model.map(String::from),
            input_tokens: None,
            output_tokens: None,
        },
    }
}

#[test]
fn scenario_complete_with_tokens() {
    let mut st = SpanStore::new();
    let s1 = running_span(1, 10, "ollama-generate", Some("llama3"), 100);
    let id = st.insert(s1);
    assert_eq!(id, 1);
    assert!(st.set_token_counts(id, Some(10), Some(5)));
    assert!(st.complete(id));
    let s = st.get(id).expect("span must be present");
    assert!(matches!(s.status, SpanStatus::Completed { .. }));
    assert_eq!(s.metadata.input_tokens, Some(10));
    assert_eq!(s.metadata.output_tokens, Some(5));
    assert_eq!(s.metadata.model.as_deref(), Some("llama3"));
}

#[test]
fn scenario_trace_index_cleanup() {
    let mut st = SpanStore::new();
    st.insert(running_span(1, 77, "a", None, 0));
    st.insert(running_span(2, 77, "b", None, 1));
    assert_eq!(st.spans_for_trace(77), vec![1, 2]);
    assert!(st.delete_span(1));
    assert_eq!(st.spans_for_trace(77), vec![2]);
    assert!(st.delete_span(2));
    assert!(st.spans_for_trace(77).is_empty());
    assert!(!st.trace_ids().contains(&77));
    assert_eq!(st.trace_count(), 0);
    assert_eq!(st.span_count(), 0);
}

#[test]
fn scenario_filter_by_model() {
    let mut st = SpanStore::new();
    st.insert(running_span(1, 1, "x", Some("a"), 0));
    st.insert(running_span(2, 2, "y", Some("b"), 0));
    st.insert(running_span(3, 3, "z", Some("a"), 0));
    let mut f = SpanFilter::default();
    f.model = Some(String::from("a"));
    let hits = st.filter_spans(&f);
    assert_eq!(hits.len(), 2);
    let mut ids: Vec<u64> = hits.iter().map(|s| s.id).collect();
    ids.sort();
    assert_eq!(ids, vec![1, 3]);
}

#[test]
fn lifecycle_idempotence() {
    let mut st = SpanStore::new();
    st.insert(running_span(4, 4, "op", None, 50));
    assert!(st.complete(4));
    let (first_started, first_ended) = match st.get(4).unwrap().status {
        SpanStatus::Completed { started_at, ended_at } => (started_at, ended_at),
        _ => panic!("span must be completed"),
    };
    // a later fail must not overwrite the terminal state
    assert!(st.fail(4, String::from("late error")));
    match st.get(4).unwrap().status {
        SpanStatus::Completed { started_at, ended_at } => {
            assert_eq!(started_at, first_started);
            assert_eq!(ended_at, first_ended);
        },
        _ => panic!("terminal state was overwritten"),
    }
    // and a second complete must not move ended_at either
    assert!(st.complete(4));
    match st.get(4).unwrap().status {
        SpanStatus::Completed { ended_at, .. } => assert_eq!(ended_at, first_ended),
        _ => panic!("terminal state was overwritten"),
    }
}

#[test]
fn fail_records_message_once() {
    let mut st = SpanStore::new();
    st.insert(running_span(9, 9, "op", None, 0));
    assert!(st.fail(9, String::from("boom")));
    match &st.get(9).unwrap().status {
        SpanStatus::Failed { error, .. } => assert_eq!(error, "boom"),
        _ => panic!("span must be failed"),
    }
    assert!(st.fail(9, String::from("second")));
    match &st.get(9).unwrap().status {
        SpanStatus::Failed { error, .. } => assert_eq!(error, "boom"),
        _ => panic!("failure message was overwritten"),
    }
}

#[test]
fn lookup_miss_is_not_an_error() {
    let mut st = SpanStore::new();
    assert!(st.get(42).is_none());
    assert!(!st.complete(42));
    assert!(!st.fail(42, String::from("x")));
    assert!(!st.delete_span(42));
    assert_eq!(st.delete_trace(42), 0);
    assert!(st.spans_for_trace(42).is_empty());
}

#[test]
fn delete_trace_removes_all_spans() {
    let mut st = SpanStore::new();
    st.insert(running_span(1, 5, "a", None, 0));
    st.insert(running_span(2, 5, "b", None, 0));
    st.insert(running_span(3, 6, "c", None, 0));
    assert_eq!(st.delete_trace(5), 2);
    assert!(st.get(1).is_none());
    assert!(st.get(2).is_none());
    assert!(st.get(3).is_some());
    assert!(st.spans_for_trace(5).is_empty());
    assert!(!st.trace_ids().contains(&5));
    assert!(st.trace_ids().contains(&6));
    assert_eq!(st.span_count(), 1);
    assert_eq!(st.trace_count(), 1);
}

#[test]
fn clear_empties_both_indexes() {
    let mut st = SpanStore::new();
    st.insert(running_span(1, 1, "a", None, 0));
    st.insert(running_span(2, 2, "b", None, 0));
    st.clear();
    assert_eq!(st.span_count(), 0);
    assert_eq!(st.trace_count(), 0);
    assert!(st.trace_ids().is_empty());
    assert!(st.all_spans().is_empty());
}

#[test]
fn insert_same_id_is_last_write_wins() {
    let mut st = SpanStore::new();
    st.insert(running_span(1, 5, "first", None, 0));
    st.insert(running_span(1, 5, "second", None, 0));
    assert_eq!(st.span_count(), 1);
    assert_eq!(st.get(1).unwrap().name, "second");
    assert_eq!(st.spans_for_trace(5), vec![1]);
    // even across traces, the old index entry is cleaned up
    st.insert(running_span(1, 6, "third", None, 0));
    assert_eq!(st.span_count(), 1);
    assert!(st.spans_for_trace(5).is_empty());
    assert!(!st.trace_ids().contains(&5));
    assert_eq!(st.spans_for_trace(6), vec![1]);
}

#[test]
fn spans_for_trace_keeps_insertion_order() {
    let mut st = SpanStore::new();
    st.insert(running_span(3, 1, "a", None, 0));
    st.insert(running_span(1, 1, "b", None, 0));
    st.insert(running_span(2, 1, "c", None, 0));
    assert_eq!(st.spans_for_trace(1), vec![3, 1, 2]);
}
