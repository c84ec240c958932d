//! The instrumented call handler: the per-call protocol that opens a span
//! before the upstream inference call is issued and finalizes it from the
//! call's outcome. The network call itself is an external collaborator; its
//! result reaches this module as a plain `UpstreamOutcome` value, so the
//! finalization logic is verified for every outcome the collaborator can
//! produce.

use vstd::prelude::*;

use crate::span;
use crate::span::{Span, SpanId, SpanMetadata, span_failed_from};
use crate::store::SpanStore;
use crate::text::{dec_seq, dec_string};

verus! {

/// The two proxied operations, differing only in payload shape.
pub enum CallKind {
    Generate,
    Chat,
}

/// What the upstream call produced, reduced to plain values: a transport
/// failure, a non-success backend status with its body, a success status
/// whose body did not parse, or a parsed success with its token counters.
pub enum UpstreamOutcome {
    TransportError { detail: String },
    BackendError { status: u16, body: String },
    ParseError { detail: String },
    Success { input_tokens: Option<u64>, output_tokens: Option<u64> },
}

/// The operation label recorded on the span of a call.
pub open spec fn call_name(kind: CallKind) -> Seq<char> {
    match kind {
        CallKind::Generate => "ollama-generate"@,
        CallKind::Chat => "ollama-chat"@,
    }
}

/// The error message recorded on a span for a failed outcome, one fixed
/// prefix per failure kind.
pub open spec fn error_text(o: UpstreamOutcome) -> Seq<char> {
    match o {
        UpstreamOutcome::TransportError { detail } => "Request failed: "@ + detail@,
        UpstreamOutcome::BackendError { status, body } => "Ollama error "@ + dec_seq(
            status as nat,
        ) + ": "@ + body@,
        UpstreamOutcome::ParseError { detail } => "Failed to parse response: "@ + detail@,
        UpstreamOutcome::Success { .. } => Seq::empty(),
    }
}

/// Builds the recorded error message of a failed outcome.
pub fn error_message(o: &UpstreamOutcome) -> (r: String)
    ensures
        r@ == error_text(*o),
{
    match o {
        UpstreamOutcome::TransportError { detail } => {
            let mut s = String::from_str("Request failed: ");
            s.append(detail.as_str());
            proof {
                assert(s@ =~= error_text(*o));
            }
            s
        },
        UpstreamOutcome::BackendError { status, body } => {
            let mut s = String::from_str("Ollama error ");
            let digits = dec_string(*status);
            s.append(digits.as_str());
            s.append(": ");
            s.append(body.as_str());
            proof {
                assert(s@ =~= error_text(*o));
            }
            s
        },
        UpstreamOutcome::ParseError { detail } => {
            let mut s = String::from_str("Failed to parse response: ");
            s.append(detail.as_str());
            proof {
                assert(s@ =~= error_text(*o));
            }
            s
        },
        UpstreamOutcome::Success { .. } => {
            let s = String::new();
            proof {
                assert(s@ =~= error_text(*o));
            }
            s
        },
    }
}

/// Relates a span before and after a successful finalization: its token
/// counters overwritten with the counters the backend reported, and a
/// running span completed (a terminal one left as it was).
pub open spec fn span_finished_from(
    s0: Span,
    s1: Span,
    input: Option<u64>,
    output: Option<u64>,
) -> bool {
    &&& s1.id == s0.id
    &&& s1.trace_id == s0.trace_id
    &&& s1.parent_span_id == s0.parent_span_id
    &&& s1.name == s0.name
    &&& s1.metadata.model == s0.metadata.model
    &&& s1.metadata.input_tokens == input
    &&& s1.metadata.output_tokens == output
    &&& if s0.status is Running {
        &&& s1.status is Completed
        &&& s1.status.started_at() == s0.status.started_at()
        &&& s1.status.wf()
    } else {
        s1.status == s0.status
    }
}

/// Opens the span of one inbound call: a fresh trace of its own, no parent,
/// the operation label of the call kind, the requested model recorded, and
/// the span inserted into the store in `Running` state — visible to every
/// concurrent reader before the upstream call is issued.
pub fn start_call(store: &mut SpanStore, kind: CallKind, model: String) -> (id: SpanId)
    requires
        old(store)@.wf(),
    ensures
        final(store)@.wf(),
        exists|s: Span|
            {
                &&& final(store)@ == #[trigger] old(store)@.insert_span(s)
                &&& s.id == id
                &&& s.parent_span_id is None
                &&& s.name@ == call_name(kind)
                &&& s.status is Running
                &&& s.metadata.model == Some(model)
                &&& s.metadata.input_tokens is None
                &&& s.metadata.output_tokens is None
            },
{
    let trace_id = span::fresh_id();
    let label: &str = match kind {
        CallKind::Generate => "ollama-generate",
        CallKind::Chat => "ollama-chat",
    };
    let mut sp = Span::new(trace_id, None, String::from_str(label));
    sp.metadata = SpanMetadata { model: Some(model), input_tokens: None, output_tokens: None };
    let ghost gs = sp;
    let id = store.insert(sp);
    proof {
        assert(final(store)@ == old(store)@.insert_span(gs));
    }
    id
}

/// Finalizes the span of one inbound call from the upstream outcome: on
/// success the token counters are recorded and the span completed; on any
/// failure the span is failed with the outcome's message. Returns whether
/// the caller is owed the backend body (exactly on success); on failure the
/// caller gets only a generic upstream-failure signal. A missing span id
/// leaves the store unchanged.
pub fn finish_call(store: &mut SpanStore, span_id: SpanId, outcome: &UpstreamOutcome) -> (ok:
    bool)
    requires
        old(store)@.wf(),
    ensures
        final(store)@.wf(),
        ok == (*outcome is Success),
        !old(store)@.has_span(span_id) ==> final(store)@ == old(store)@,
        old(store)@.has_span(span_id) ==> {
            &&& final(store)@.traces == old(store)@.traces
            &&& final(store)@.spans == old(store)@.spans.update(
                old(store)@.span_index(span_id),
                final(store)@.span_at(span_id),
            )
            &&& match *outcome {
                UpstreamOutcome::Success { input_tokens, output_tokens } => span_finished_from(
                    old(store)@.span_at(span_id),
                    final(store)@.span_at(span_id),
                    input_tokens,
                    output_tokens,
                ),
                _ => span_failed_from(
                    old(store)@.span_at(span_id),
                    final(store)@.span_at(span_id),
                    error_text(*outcome),
                ),
            }
        },
{
    match outcome {
        UpstreamOutcome::Success { input_tokens, output_tokens } => {
            let ghost m0 = store@;
            store.set_token_counts(span_id, *input_tokens, *output_tokens);
            let ghost m1 = store@;
            proof {
                if m0.has_span(span_id) {
                    lemma_span_index_of_update(m0, m1, span_id);
                }
            }
            store.complete(span_id);
            proof {
                if m0.has_span(span_id) {
                    let i = m0.span_index(span_id);
                    assert(m1.has_span(span_id));
                    lemma_span_index_of_update(m1, final(store)@, span_id);
                    assert(final(store)@.spans =~= m0.spans.update(
                        i,
                        final(store)@.span_at(span_id),
                    ));
                } else {
                    assert(!m1.has_span(span_id));
                }
            }
            true
        },
        _ => {
            let msg = error_message(outcome);
            store.fail(span_id, msg);
            false
        },
    }
}

/// After an update-in-place of the span with id `id`, the span keeps its
/// position, and the store still holds it.
proof fn lemma_span_index_of_update(m0: crate::store::StoreModel, m1: crate::store::StoreModel, id: SpanId)
    requires
        m0.wf(),
        m1.wf(),
        m0.has_span(id),
        m1.spans == m0.spans.update(m0.span_index(id), m1.spans[m0.span_index(id)]),
        m1.spans[m0.span_index(id)].id == id,
    ensures
        m1.has_span(id),
        m1.span_index(id) == m0.span_index(id),
        m1.span_at(id) == m1.spans[m0.span_index(id)],
{
    let i = m0.span_index(id);
    crate::store::lemma_span_index_is(m1, i);
}

} // verus!
