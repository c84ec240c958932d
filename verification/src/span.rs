//! The span model: one observed unit of work and its lifecycle state machine.

use vstd::prelude::*;

verus! {

/// Identifier of a single span, fresh per creation.
pub type SpanId = u64;

/// Identifier grouping related spans into a trace.
pub type TraceId = u64;

/// Lifecycle state of a span. `Running` is the initial state; the other two
/// are terminal and carry the timestamps (milliseconds) of the work's bounds.
pub enum SpanStatus {
    Running { started_at: i64 },
    Completed { started_at: i64, ended_at: i64 },
    Failed { started_at: i64, ended_at: i64, error: String },
}

/// Structured side-data of a span, populated incrementally by the caller.
pub struct SpanMetadata {
    pub model: Option<String>,
    pub input_tokens: Option<u64>,
    pub output_tokens: Option<u64>,
}

/// One observed unit of work.
pub struct Span {
    pub id: SpanId,
    pub trace_id: TraceId,
    pub parent_span_id: Option<SpanId>,
    pub name: String,
    pub status: SpanStatus,
    pub metadata: SpanMetadata,
}

impl SpanStatus {
    /// The creation timestamp, fixed across every transition.
    pub open spec fn started_at(self) -> i64 {
        match self {
            SpanStatus::Running { started_at } => started_at,
            SpanStatus::Completed { started_at, .. } => started_at,
            SpanStatus::Failed { started_at, .. } => started_at,
        }
    }

    pub open spec fn is_terminal(self) -> bool {
        !(self is Running)
    }

    /// A status is well formed when its end does not precede its start.
    pub open spec fn wf(self) -> bool {
        match self {
            SpanStatus::Running { .. } => true,
            SpanStatus::Completed { started_at, ended_at } => started_at <= ended_at,
            SpanStatus::Failed { started_at, ended_at, .. } => started_at <= ended_at,
        }
    }
}

/// Relates a span before and after a `complete` call: a running span becomes
/// `Completed` with its `started_at` kept and a plausible `ended_at`; a span
/// already terminal is left exactly as it was; nothing else moves.
pub open spec fn span_completed_from(s0: Span, s1: Span) -> bool {
    &&& s1.id == s0.id
    &&& s1.trace_id == s0.trace_id
    &&& s1.parent_span_id == s0.parent_span_id
    &&& s1.name == s0.name
    &&& s1.metadata == s0.metadata
    &&& if s0.status is Running {
        &&& s1.status is Completed
        &&& s1.status.started_at() == s0.status.started_at()
        &&& s1.status.wf()
    } else {
        s1.status == s0.status
    }
}

/// Relates a span before and after a `fail(error)` call, in the same way.
pub open spec fn span_failed_from(s0: Span, s1: Span, error: Seq<char>) -> bool {
    &&& s1.id == s0.id
    &&& s1.trace_id == s0.trace_id
    &&& s1.parent_span_id == s0.parent_span_id
    &&& s1.name == s0.name
    &&& s1.metadata == s0.metadata
    &&& if s0.status is Running {
        &&& s1.status is Failed
        &&& s1.status.started_at() == s0.status.started_at()
        &&& s1.status.wf()
        &&& match s1.status {
            SpanStatus::Failed { error: e, .. } => e@ == error,
            _ => false,
        }
    } else {
        s1.status == s0.status
    }
}

/// Lifecycle idempotence: a `complete` or `fail` call on a span whose state
/// is already terminal leaves the span exactly as it was — neither
/// `ended_at` nor a recorded error is ever overwritten.
pub proof fn lemma_lifecycle_idempotence(s0: Span, s1: Span, error: Seq<char>)
    requires
        s0.status.is_terminal(),
        span_completed_from(s0, s1) || span_failed_from(s0, s1, error),
    ensures
        s1 == s0,
{
}

/// Relates a span before and after its token counters are overwritten.
pub open spec fn span_tokens_set_from(
    s0: Span,
    s1: Span,
    input: Option<u64>,
    output: Option<u64>,
) -> bool {
    &&& s1.id == s0.id
    &&& s1.trace_id == s0.trace_id
    &&& s1.parent_span_id == s0.parent_span_id
    &&& s1.name == s0.name
    &&& s1.status == s0.status
    &&& s1.metadata.model == s0.metadata.model
    &&& s1.metadata.input_tokens == input
    &&& s1.metadata.output_tokens == output
}

/// Relies on `uuid::Uuid::new_v4` for a fresh random identifier, reduced to
/// its low 64 bits. The result is random: nothing is promised of it.
#[verifier::external_body]
pub(crate) fn fresh_id() -> SpanId {
    uuid::Uuid::new_v4().as_u128() as u64
}

/// Relies on `chrono::Utc::now` for the current wall-clock time, as
/// milliseconds since the Unix epoch. The result depends on the clock:
/// nothing is promised of it.
#[verifier::external_body]
fn now_millis() -> i64 {
    chrono::Utc::now().timestamp_millis()
}

impl Span {
    /// Creates a span in the `Running` state with a fresh identifier, the
    /// current time as `started_at`, and empty metadata.
    pub fn new(trace_id: TraceId, parent_span_id: Option<SpanId>, name: String) -> (r: Span)
        ensures
            r.trace_id == trace_id,
            r.parent_span_id == parent_span_id,
            r.name == name,
            r.status is Running,
            r.metadata.model is None,
            r.metadata.input_tokens is None,
            r.metadata.output_tokens is None,
    {
        Span {
            id: fresh_id(),
            trace_id,
            parent_span_id,
            name,
            status: SpanStatus::Running { started_at: now_millis() },
            metadata: SpanMetadata { model: None, input_tokens: None, output_tokens: None },
        }
    }

    /// An exact copy of the span, used by the store to hand spans out of its
    /// owned collection.
    pub fn duplicate(&self) -> (r: Span)
        ensures
            r == *self,
    {
        Span {
            id: self.id,
            trace_id: self.trace_id,
            parent_span_id: match &self.parent_span_id {
                Some(p) => Some(*p),
                None => None,
            },
            name: self.name.clone(),
            status: match &self.status {
                SpanStatus::Running { started_at } => SpanStatus::Running {
                    started_at: *started_at,
                },
                SpanStatus::Completed { started_at, ended_at } => SpanStatus::Completed {
                    started_at: *started_at,
                    ended_at: *ended_at,
                },
                SpanStatus::Failed { started_at, ended_at, error } => SpanStatus::Failed {
                    started_at: *started_at,
                    ended_at: *ended_at,
                    error: error.clone(),
                },
            },
            metadata: SpanMetadata {
                model: match &self.metadata.model {
                    Some(m) => Some(m.clone()),
                    None => None,
                },
                input_tokens: self.metadata.input_tokens,
                output_tokens: self.metadata.output_tokens,
            },
        }
    }

    /// The creation timestamp of the span, in milliseconds.
    pub fn started_at_ms(&self) -> (r: i64)
        ensures
            r == self.status.started_at(),
    {
        match &self.status {
            SpanStatus::Running { started_at } => *started_at,
            SpanStatus::Completed { started_at, .. } => *started_at,
            SpanStatus::Failed { started_at, .. } => *started_at,
        }
    }

    /// Transitions a running span to `Completed`; a no-op on a span that is
    /// already terminal, so a defensive second call never overwrites the
    /// recorded outcome.
    pub fn complete(&mut self)
        ensures
            span_completed_from(*old(self), *final(self)),
    {
        match &self.status {
            SpanStatus::Running { started_at } => {
                let started: i64 = *started_at;
                let now = now_millis();
                let ended: i64 = if now < started {
                    started
                } else {
                    now
                };
                self.status = SpanStatus::Completed { started_at: started, ended_at: ended };
            },
            _ => {},
        }
    }

    /// Transitions a running span to `Failed` with the given message; a no-op
    /// on a span that is already terminal.
    pub fn fail(&mut self, error: String)
        ensures
            span_failed_from(*old(self), *final(self), error@),
    {
        match &self.status {
            SpanStatus::Running { started_at } => {
                let started: i64 = *started_at;
                let now = now_millis();
                let ended: i64 = if now < started {
                    started
                } else {
                    now
                };
                self.status = SpanStatus::Failed {
                    started_at: started,
                    ended_at: ended,
                    error,
                };
            },
            _ => {},
        }
    }
}

} // verus!
