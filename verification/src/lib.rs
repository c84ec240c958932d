//! In-memory tracing of proxied LLM inference calls.
//!
//! A [`Span`] records one observed unit of work and walks a small lifecycle
//! state machine: `Running` at creation, then `Completed` or `Failed`, both
//! terminal. The [`SpanStore`] owns every live span under a primary id index
//! and a secondary trace index, and answers point lookups, trace
//! enumeration, deletion and filtered queries; its contracts are stated over
//! a sequence model ([`StoreModel`]) whose well-formedness ties the two
//! indexes together. The handler module holds the per-call protocol: open a
//! span before the upstream call is issued, finalize it from the call's
//! outcome.

pub mod handler;
pub mod span;
pub mod store;
pub mod text;

pub use handler::{CallKind, UpstreamOutcome};
pub use span::{Span, SpanId, SpanMetadata, SpanStatus, TraceId};
pub use store::{SpanFilter, SpanStore, StoreModel};
