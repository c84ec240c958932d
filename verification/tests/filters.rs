use llmtrace::{Span, SpanFilter, SpanMetadata, SpanStatus, SpanStore};

fn span(id: u64, name: &str, model: Option<&str>, status: SpanStatus) -> Span {
    Span {
        id,
        trace_id: id,
        parent_span_id: None,
        name: String::from(name),
        status,
        metadata: SpanMetadata {
            model: model.map(String::from),
            input_tokens: None,
            output_tokens: None,
        },
    }
}

fn sample_store() -> SpanStore {
    let mut st = SpanStore::new();
    st.insert(span(1, "ollama-generate", Some("llama3"), SpanStatus::Running { started_at: 100 }));
    st.insert(span(
        2,
        "ollama-chat",
        Some("llama3"),
        SpanStatus::Completed { started_at: 200, ended_at: 250 },
    ));
    st.insert(span(
        3,
        "ollama-generate",
        Some("mistral"),
        SpanStatus::Failed { started_at: 300, ended_at: 350, error: String::from("boom") },
    ));
    st.insert(span(4, "warmup", None, SpanStatus::Running { started_at: 400 }));
    st
}

fn hit_ids(st: &SpanStore, f: &SpanFilter) -> Vec<u64> {
    let mut ids: Vec<u64> = st.filter_spans(f).iter().map(|s| s.id).collect();
    ids.sort();
    ids
}

#[test]
fn all_unset_filter_matches_everything() {
    let st = sample_store();
    assert_eq!(hit_ids(&st, &SpanFilter::default()), vec![1, 2, 3, 4]);
}

#[test]
fn status_filter_matches_variant_names() {
    let st = sample_store();
    let mut f = SpanFilter::default();
    f.status = Some(String::from("running"));
    assert_eq!(hit_ids(&st, &f), vec![1, 4]);
    f.status = Some(String::from("completed"));
    assert_eq!(hit_ids(&st, &f), vec![2]);
    f.status = Some(String::from("failed"));
    assert_eq!(hit_ids(&st, &f), vec![3]);
}

#[test]
fn missing_model_never_matches_a_model_filter() {
    let st = sample_store();
    let mut f = SpanFilter::default();
    f.model = Some(String::from("llama3"));
    assert_eq!(hit_ids(&st, &f), vec![1, 2]);
}

#[test]
fn time_bounds_are_inclusive_on_started_at() {
    let st = sample_store();
    let mut f = SpanFilter::default();
    f.since = Some(200);
    assert_eq!(hit_ids(&st, &f), vec![2, 3, 4]);
    f.until = Some(300);
    assert_eq!(hit_ids(&st, &f), vec![2, 3]);
    f.since = Some(201);
    assert_eq!(hit_ids(&st, &f), vec![3]);
}

#[test]
fn name_contains_is_a_substring_match() {
    let st = sample_store();
    let mut f = SpanFilter::default();
    f.name_contains = Some(String::from("generate"));
    assert_eq!(hit_ids(&st, &f), vec![1, 3]);
    f.name_contains = Some(String::from(""));
    assert_eq!(hit_ids(&st, &f), vec![1, 2, 3, 4]);
    f.name_contains = Some(String::from("nowhere"));
    assert!(hit_ids(&st, &f).is_empty());
}

#[test]
fn criteria_combine_with_logical_and() {
    let st = sample_store();
    let mut f = SpanFilter::default();
    f.model = Some(String::from("llama3"));
    f.status = Some(String::from("completed"));
    assert_eq!(hit_ids(&st, &f), vec![2]);
    f.status = Some(String::from("failed"));
    assert!(hit_ids(&st, &f).is_empty());
    let mut g = SpanFilter::default();
    g.name_contains = Some(String::from("ollama"));
    g.since = Some(150);
    assert_eq!(hit_ids(&st, &g), vec![2, 3]);
}
