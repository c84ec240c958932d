//! The span store: an in-memory repository of spans with a primary id index
//! and a secondary trace index, specified against a sequence model.

use vstd::prelude::*;

use crate::span::{
    Span, SpanId, SpanStatus, TraceId, span_completed_from, span_failed_from, span_tokens_set_from,
};
use crate::text::{is_substring, str_contains};

verus! {

/// Filter criteria for querying spans; unset criteria are not applied, set
/// criteria are combined with logical AND.
pub struct SpanFilter {
    pub model: Option<String>,
    pub status: Option<String>,
    pub since: Option<i64>,
    pub until: Option<i64>,
    pub name_contains: Option<String>,
}

impl Default for SpanFilter {
    /// The all-unset filter, which matches every span.
    fn default() -> (r: SpanFilter)
        ensures
            r.model is None,
            r.status is None,
            r.since is None,
            r.until is None,
            r.name_contains is None,
    {
        SpanFilter { model: None, status: None, since: None, until: None, name_contains: None }
    }
}

impl SpanFilter {
    /// Whether the span satisfies every criterion this filter sets.
    pub fn matches(&self, s: &Span) -> (r: bool)
        ensures
            r == span_matches(*s, *self),
    {
        match &self.model {
            Some(fm) => {
                match &s.metadata.model {
                    Some(sm) => {
                        if !sm.eq(fm) {
                            return false;
                        }
                    },
                    None => {
                        return false;
                    },
                }
            },
            None => {},
        }
        match &self.status {
            Some(st) => {
                let variant: &str = match &s.status {
                    SpanStatus::Running { .. } => "running",
                    SpanStatus::Completed { .. } => "completed",
                    SpanStatus::Failed { .. } => "failed",
                };
                let variant_string = String::from_str(variant);
                if !st.eq(&variant_string) {
                    return false;
                }
            },
            None => {},
        }
        match &self.since {
            Some(t) => {
                if s.started_at_ms() < *t {
                    return false;
                }
            },
            None => {},
        }
        match &self.until {
            Some(t) => {
                if s.started_at_ms() > *t {
                    return false;
                }
            },
            None => {},
        }
        match &self.name_contains {
            Some(nc) => {
                if !str_contains(s.name.as_str(), nc.as_str()) {
                    return false;
                }
            },
            None => {},
        }
        true
    }
}

/// One entry of the secondary index: a trace and the ids of its live spans,
/// in insertion order.
struct TraceEntry {
    trace_id: TraceId,
    span_ids: Vec<SpanId>,
}

/// In-memory span store with dual indexes.
pub struct SpanStore {
    spans: Vec<Span>,
    traces: Vec<TraceEntry>,
}

/// The mathematical content of a store: the live spans in insertion order,
/// and the secondary index as a sequence of (trace id, span ids) pairs.
#[verifier::ext_equal]
pub ghost struct StoreModel {
    pub spans: Seq<Span>,
    pub traces: Seq<(TraceId, Seq<SpanId>)>,
}

// ---------------------------------------------------------------------------
// Spec-level helpers over the model's sequences.
// ---------------------------------------------------------------------------

/// No two spans share an id.
pub open spec fn span_ids_unique(spans: Seq<Span>) -> bool {
    forall|i: int, j: int| 0 <= i < j < spans.len() ==> spans[i].id != spans[j].id
}

/// No two index entries share a trace id.
pub open spec fn trace_ids_unique(traces: Seq<(TraceId, Seq<SpanId>)>) -> bool {
    forall|i: int, j: int| 0 <= i < j < traces.len() ==> traces[i].0 != traces[j].0
}

/// The ids of the spans belonging to `tid`, in the order the spans stand in
/// `spans` — i.e. insertion order.
pub open spec fn trace_projection(spans: Seq<Span>, tid: TraceId) -> Seq<SpanId>
    decreases spans.len(),
{
    if spans.len() == 0 {
        Seq::empty()
    } else {
        let rest = trace_projection(spans.drop_last(), tid);
        if spans.last().trace_id == tid {
            rest.push(spans.last().id)
        } else {
            rest
        }
    }
}

/// `ids` with every occurrence of `id` removed, order otherwise kept.
pub open spec fn ids_without(ids: Seq<SpanId>, id: SpanId) -> Seq<SpanId>
    decreases ids.len(),
{
    if ids.len() == 0 {
        Seq::empty()
    } else {
        let rest = ids_without(ids.drop_last(), id);
        if ids.last() == id {
            rest
        } else {
            rest.push(ids.last())
        }
    }
}

/// `spans` with every span of trace `tid` removed, order otherwise kept.
pub open spec fn spans_without_trace(spans: Seq<Span>, tid: TraceId) -> Seq<Span>
    decreases spans.len(),
{
    if spans.len() == 0 {
        Seq::empty()
    } else {
        let rest = spans_without_trace(spans.drop_last(), tid);
        if spans.last().trace_id == tid {
            rest
        } else {
            rest.push(spans.last())
        }
    }
}

impl StoreModel {
    pub open spec fn empty() -> StoreModel {
        StoreModel { spans: Seq::empty(), traces: Seq::empty() }
    }

    pub open spec fn has_span(self, id: SpanId) -> bool {
        exists|i: int| 0 <= i < self.spans.len() && self.spans[i].id == id
    }

    /// The position of the span with id `id`; meaningful only under
    /// `has_span` and id uniqueness.
    pub open spec fn span_index(self, id: SpanId) -> int {
        choose|i: int| 0 <= i < self.spans.len() && self.spans[i].id == id
    }

    pub open spec fn span_at(self, id: SpanId) -> Span {
        self.spans[self.span_index(id)]
    }

    pub open spec fn has_trace(self, tid: TraceId) -> bool {
        exists|k: int| 0 <= k < self.traces.len() && self.traces[k].0 == tid
    }

    pub open spec fn trace_index(self, tid: TraceId) -> int {
        choose|k: int| 0 <= k < self.traces.len() && self.traces[k].0 == tid
    }

    /// The recorded span ids of a trace; empty when the trace is unknown.
    pub open spec fn trace_spans(self, tid: TraceId) -> Seq<SpanId> {
        if self.has_trace(tid) {
            self.traces[self.trace_index(tid)].1
        } else {
            Seq::empty()
        }
    }

    /// The trace ids of the secondary index, in index order.
    pub open spec fn trace_ids(self) -> Seq<TraceId> {
        self.traces.map_values(|e: (TraceId, Seq<SpanId>)| e.0)
    }

    /// Well-formedness: unique keys in both indexes, every index entry is
    /// exactly the insertion-ordered projection of the live spans of its
    /// trace and is non-empty, and every live span's trace is indexed.
    pub open spec fn wf(self) -> bool {
        &&& span_ids_unique(self.spans)
        &&& trace_ids_unique(self.traces)
        &&& forall|k: int|
            0 <= k < self.traces.len() ==> self.traces[k].1 == trace_projection(
                self.spans,
                self.traces[k].0,
            )
        &&& forall|k: int| 0 <= k < self.traces.len() ==> self.traces[k].1.len() > 0
        &&& forall|i: int|
            0 <= i < self.spans.len() ==> self.has_trace(#[trigger] self.spans[i].trace_id)
    }

    /// The model after a fresh insert: the span appended to the live spans,
    /// its id appended to its trace's entry (created if absent).
    pub open spec fn insert_fresh(self, span: Span) -> StoreModel {
        let spans2 = self.spans.push(span);
        let traces2 = if self.has_trace(span.trace_id) {
            let k = self.trace_index(span.trace_id);
            self.traces.update(k, (span.trace_id, self.traces[k].1.push(span.id)))
        } else {
            self.traces.push((span.trace_id, seq![span.id]))
        };
        StoreModel { spans: spans2, traces: traces2 }
    }

    /// The model after deleting the span with id `id`, if present: the span
    /// removed, its id struck from its trace's entry, and the entry dropped
    /// entirely when it becomes empty.
    pub open spec fn remove_span(self, id: SpanId) -> StoreModel {
        if self.has_span(id) {
            let i = self.span_index(id);
            let tid = self.spans[i].trace_id;
            let spans2 = self.spans.remove(i);
            let traces2 = if self.has_trace(tid) {
                let k = self.trace_index(tid);
                let ids2 = ids_without(self.traces[k].1, id);
                if ids2.len() == 0 {
                    self.traces.remove(k)
                } else {
                    self.traces.update(k, (tid, ids2))
                }
            } else {
                self.traces
            };
            StoreModel { spans: spans2, traces: traces2 }
        } else {
            self
        }
    }

    /// The model after an insert: last-write-wins, so any span already under
    /// the same id is deleted first, then the span is inserted fresh.
    pub open spec fn insert_span(self, span: Span) -> StoreModel {
        self.remove_span(span.id).insert_fresh(span)
    }

    /// The model after deleting a whole trace, if present.
    pub open spec fn remove_trace(self, tid: TraceId) -> StoreModel {
        if self.has_trace(tid) {
            StoreModel {
                spans: spans_without_trace(self.spans, tid),
                traces: self.traces.remove(self.trace_index(tid)),
            }
        } else {
            self
        }
    }
}

impl View for SpanStore {
    type V = StoreModel;

    closed spec fn view(&self) -> StoreModel {
        StoreModel {
            spans: self.spans@,
            traces: self.traces@.map_values(|e: TraceEntry| (e.trace_id, e.span_ids@)),
        }
    }
}

// ---------------------------------------------------------------------------
// Basic lemmas.
// ---------------------------------------------------------------------------

/// Under id uniqueness, the span index is the one position that holds the id.
pub proof fn lemma_span_index_is(m: StoreModel, i: int)
    requires
        span_ids_unique(m.spans),
        0 <= i < m.spans.len(),
    ensures
        m.has_span(m.spans[i].id),
        m.span_index(m.spans[i].id) == i,
{
    assert(m.has_span(m.spans[i].id));
    let j = m.span_index(m.spans[i].id);
    if j != i {
        if j < i {
            assert(m.spans[j].id != m.spans[i].id);
        } else {
            assert(m.spans[i].id != m.spans[j].id);
        }
    }
}

/// Under trace id uniqueness, the trace index is the one matching position.
pub proof fn lemma_trace_index_is(m: StoreModel, k: int)
    requires
        trace_ids_unique(m.traces),
        0 <= k < m.traces.len(),
    ensures
        m.has_trace(m.traces[k].0),
        m.trace_index(m.traces[k].0) == k,
{
    assert(m.has_trace(m.traces[k].0));
    let j = m.trace_index(m.traces[k].0);
    if j != k {
        if j < k {
            assert(m.traces[j].0 != m.traces[k].0);
        } else {
            assert(m.traces[k].0 != m.traces[j].0);
        }
    }
}

/// Membership of the trace projection: exactly the ids of the spans of `tid`.
pub proof fn lemma_projection_contains(spans: Seq<Span>, tid: TraceId, id: SpanId)
    ensures
        trace_projection(spans, tid).contains(id) <==> exists|i: int|
            0 <= i < spans.len() && spans[i].trace_id == tid && spans[i].id == id,
    decreases spans.len(),
{
    if spans.len() > 0 {
        lemma_projection_contains(spans.drop_last(), tid, id);
        let rest = trace_projection(spans.drop_last(), tid);
        if spans.last().trace_id == tid {
            assert(trace_projection(spans, tid) == rest.push(spans.last().id));
            if rest.push(spans.last().id).contains(id) {
                if id == spans.last().id {
                    assert(spans[spans.len() - 1].trace_id == tid && spans[spans.len() - 1].id
                        == id);
                } else {
                    assert(rest.contains(id));
                }
            }
            if exists|i: int| 0 <= i < spans.len() && spans[i].trace_id == tid && spans[i].id
                == id {
                let i = choose|i: int|
                    0 <= i < spans.len() && spans[i].trace_id == tid && spans[i].id == id;
                if i == spans.len() - 1 {
                    assert(rest.push(spans.last().id)[rest.len() as int] == id);
                } else {
                    assert(spans.drop_last()[i] == spans[i]);
                    assert(rest.contains(id));
                    let j = choose|j: int| 0 <= j < rest.len() && rest[j] == id;
                    assert(rest.push(spans.last().id)[j] == id);
                }
            }
        } else {
            if exists|i: int| 0 <= i < spans.len() && spans[i].trace_id == tid && spans[i].id
                == id {
                let i = choose|i: int|
                    0 <= i < spans.len() && spans[i].trace_id == tid && spans[i].id == id;
                assert(i < spans.len() - 1);
                assert(spans.drop_last()[i] == spans[i]);
            }
        }
    }
}

/// Appending a span extends its own trace's projection by its id and leaves
/// every other projection unchanged.
pub proof fn lemma_projection_push(spans: Seq<Span>, s: Span, tid: TraceId)
    ensures
        trace_projection(spans.push(s), tid) == if s.trace_id == tid {
            trace_projection(spans, tid).push(s.id)
        } else {
            trace_projection(spans, tid)
        },
{
    assert(spans.push(s).drop_last() =~= spans);
    assert(spans.push(s).last() == s);
}

/// Updating a span in place without changing its id or trace id leaves every
/// trace projection unchanged.
pub proof fn lemma_projection_update(spans: Seq<Span>, i: int, s2: Span, tid: TraceId)
    requires
        0 <= i < spans.len(),
        s2.id == spans[i].id,
        s2.trace_id == spans[i].trace_id,
    ensures
        trace_projection(spans.update(i, s2), tid) == trace_projection(spans, tid),
    decreases spans.len(),
{
    if i == spans.len() - 1 {
        assert(spans.update(i, s2).drop_last() =~= spans.drop_last());
        assert(spans.update(i, s2).last() == s2);
    } else {
        lemma_projection_update(spans.drop_last(), i, s2, tid);
        assert(spans.update(i, s2).drop_last() =~= spans.drop_last().update(i, s2));
        assert(spans.update(i, s2).last() == spans.last());
    }
}

/// Removing the span at position `si` strikes its id from its own trace's
/// projection and leaves every other projection unchanged.
pub proof fn lemma_projection_remove(spans: Seq<Span>, si: int, tid: TraceId)
    requires
        0 <= si < spans.len(),
        span_ids_unique(spans),
    ensures
        trace_projection(spans.remove(si), tid) == if spans[si].trace_id == tid {
            ids_without(trace_projection(spans, tid), spans[si].id)
        } else {
            trace_projection(spans, tid)
        },
    decreases spans.len(),
{
    let id = spans[si].id;
    if si == spans.len() - 1 {
        assert(spans.remove(si) =~= spans.drop_last());
        if spans[si].trace_id == tid {
            let rest = trace_projection(spans.drop_last(), tid);
            assert(trace_projection(spans, tid) == rest.push(id));
            assert(rest.push(id).last() == id);
            assert(rest.push(id).drop_last() =~= rest);
            lemma_projection_contains(spans.drop_last(), tid, id);
            assert(forall|j: int| 0 <= j < spans.len() - 1 ==> spans.drop_last()[j] == spans[j]);
            assert(!rest.contains(id)) by {
                if rest.contains(id) {
                    let j = choose|j: int|
                        0 <= j < spans.drop_last().len() && spans.drop_last()[j].trace_id == tid
                            && spans.drop_last()[j].id == id;
                    assert(spans[j].id == spans[si].id);
                }
            }
            lemma_ids_without_absent(rest, id);
            assert(ids_without(rest.push(id), id) == rest);
        }
    } else {
        let shorter = spans.drop_last();
        assert(span_ids_unique(shorter)) by {
            assert(forall|j: int| 0 <= j < shorter.len() ==> shorter[j] == spans[j]);
        }
        lemma_projection_remove(shorter, si, tid);
        assert(spans.remove(si).drop_last() =~= shorter.remove(si));
        assert(spans.remove(si).last() == spans.last());
        let last = spans.last();
        if last.trace_id == tid {
            assert(trace_projection(spans, tid) == trace_projection(shorter, tid).push(last.id));
            assert(trace_projection(spans.remove(si), tid) == trace_projection(
                shorter.remove(si),
                tid,
            ).push(last.id));
            if spans[si].trace_id == tid {
                let proj = trace_projection(shorter, tid);
                assert(proj.push(last.id).last() == last.id);
                assert(proj.push(last.id).drop_last() =~= proj);
                assert(last.id != id) by {
                    assert(spans[si].id == id && spans[spans.len() - 1].id == last.id);
                }
                assert(ids_without(proj.push(last.id), id) == ids_without(proj, id).push(last.id));
            }
        } else {
            assert(trace_projection(spans, tid) == trace_projection(shorter, tid));
            assert(trace_projection(spans.remove(si), tid) == trace_projection(
                shorter.remove(si),
                tid,
            ));
        }
    }
}

/// What `spans_without_trace` keeps: projections of other traces unchanged,
/// its own projection gone, id uniqueness kept, and every kept span is a
/// span of the original sequence.
pub proof fn lemma_without_trace(spans: Seq<Span>, tid: TraceId)
    requires
        span_ids_unique(spans),
    ensures
        span_ids_unique(spans_without_trace(spans, tid)),
        forall|t2: TraceId|
            t2 != tid ==> #[trigger] trace_projection(spans_without_trace(spans, tid), t2)
                == trace_projection(spans, t2),
        trace_projection(spans_without_trace(spans, tid), tid) == Seq::<SpanId>::empty(),
        forall|i: int|
            0 <= i < spans_without_trace(spans, tid).len() ==> spans.contains(
                #[trigger] spans_without_trace(spans, tid)[i],
            ) && spans_without_trace(spans, tid)[i].trace_id != tid,
    decreases spans.len(),
{
    let res = spans_without_trace(spans, tid);
    if spans.len() > 0 {
        let shorter = spans.drop_last();
        assert(span_ids_unique(shorter)) by {
            assert(forall|j: int| 0 <= j < shorter.len() ==> shorter[j] == spans[j]);
        }
        lemma_without_trace(shorter, tid);
        let rest = spans_without_trace(shorter, tid);
        let last = spans.last();
        if last.trace_id == tid {
            assert(res == rest);
            assert(forall|i: int|
                0 <= i < res.len() ==> spans.contains(#[trigger] res[i]) && res[i].trace_id
                    != tid) by {
                assert forall|i: int| 0 <= i < res.len() implies spans.contains(#[trigger] res[i])
                    && res[i].trace_id != tid by {
                    assert(shorter.contains(res[i]));
                    let j = choose|j: int| 0 <= j < shorter.len() && shorter[j] == res[i];
                    assert(spans[j] == res[i]);
                }
            }
            assert(forall|t2: TraceId|
                t2 != tid ==> #[trigger] trace_projection(spans, t2) == trace_projection(
                    shorter,
                    t2,
                ));
        } else {
            assert(res == rest.push(last));
            assert(span_ids_unique(res)) by {
                assert(forall|i: int| 0 <= i < res.len() - 1 ==> res[i] == rest[i]);
                assert(res[res.len() - 1] == last);
                assert(forall|i: int|
                    0 <= i < rest.len() ==> #[trigger] rest[i].id != last.id) by {
                    assert forall|i: int| 0 <= i < rest.len() implies #[trigger] rest[i].id
                        != last.id by {
                        assert(shorter.contains(rest[i]));
                        let j = choose|j: int| 0 <= j < shorter.len() && shorter[j] == rest[i];
                        assert(spans[j] == rest[i]);
                        assert(spans[j].id != spans[spans.len() - 1].id);
                    }
                }
            }
            assert(forall|i: int|
                0 <= i < res.len() ==> spans.contains(#[trigger] res[i]) && res[i].trace_id
                    != tid) by {
                assert forall|i: int| 0 <= i < res.len() implies spans.contains(#[trigger] res[i])
                    && res[i].trace_id != tid by {
                    if i < res.len() - 1 {
                        assert(shorter.contains(rest[i]));
                        let j = choose|j: int| 0 <= j < shorter.len() && shorter[j] == rest[i];
                        assert(spans[j] == res[i]);
                    } else {
                        assert(res[i] == spans[spans.len() - 1]);
                        assert(spans.contains(spans[spans.len() - 1]));
                    }
                }
            }
            assert(forall|t2: TraceId|
                t2 != tid ==> #[trigger] trace_projection(res, t2) == trace_projection(
                    spans,
                    t2,
                )) by {
                assert forall|t2: TraceId| t2 != tid implies #[trigger] trace_projection(res, t2)
                    == trace_projection(spans, t2) by {
                    assert(res.drop_last() =~= rest);
                    assert(res.last() == last);
                    assert(trace_projection(rest, t2) == trace_projection(shorter, t2));
                    if last.trace_id == t2 {
                        assert(trace_projection(res, t2) == trace_projection(
                            res.drop_last(),
                            t2,
                        ).push(last.id));
                        assert(trace_projection(spans, t2) == trace_projection(shorter, t2).push(
                            last.id,
                        ));
                    } else {
                        assert(trace_projection(res, t2) == trace_projection(res.drop_last(), t2));
                        assert(trace_projection(spans, t2) == trace_projection(shorter, t2));
                    }
                }
            }
            assert(trace_projection(res, tid) == Seq::<SpanId>::empty()) by {
                assert(res.drop_last() =~= rest);
                assert(res.last() == last);
            }
        }
    }
}

/// Removing an id that does not occur leaves a sequence unchanged.
pub proof fn lemma_ids_without_absent(ids: Seq<SpanId>, id: SpanId)
    requires
        !ids.contains(id),
    ensures
        ids_without(ids, id) == ids,
    decreases ids.len(),
{
    if ids.len() > 0 {
        assert(forall|j: int| 0 <= j < ids.len() - 1 ==> ids.drop_last()[j] == ids[j]);
        assert(!ids.drop_last().contains(id));
        lemma_ids_without_absent(ids.drop_last(), id);
        assert(ids[ids.len() - 1] != id);
        assert(ids_without(ids, id) == ids.drop_last().push(ids.last()));
        assert(ids.drop_last().push(ids.last()) =~= ids);
    }
}

// ---------------------------------------------------------------------------
// Filtering.
// ---------------------------------------------------------------------------

/// The lifecycle variant name that the status criterion is matched against.
pub open spec fn status_name(st: SpanStatus) -> Seq<char> {
    match st {
        SpanStatus::Running { .. } => "running"@,
        SpanStatus::Completed { .. } => "completed"@,
        SpanStatus::Failed { .. } => "failed"@,
    }
}

/// A span satisfies every criterion that the filter sets: exact model match,
/// exact status-name match, inclusive `started_at` bounds, and substring
/// match on the name. Unset criteria are not applied.
pub open spec fn span_matches(s: Span, f: SpanFilter) -> bool {
    &&& match f.model {
        Some(fm) => match s.metadata.model {
            Some(sm) => sm@ == fm@,
            None => false,
        },
        None => true,
    }
    &&& match f.status {
        Some(st) => st@ == status_name(s.status),
        None => true,
    }
    &&& match f.since {
        Some(t) => s.status.started_at() >= t,
        None => true,
    }
    &&& match f.until {
        Some(t) => s.status.started_at() <= t,
        None => true,
    }
    &&& match f.name_contains {
        Some(nc) => is_substring(nc@, s.name@),
        None => true,
    }
}

/// The subsequence of `spans` whose members match the filter, in order.
pub open spec fn filtered_spans(spans: Seq<Span>, f: SpanFilter) -> Seq<Span>
    decreases spans.len(),
{
    if spans.len() == 0 {
        Seq::empty()
    } else {
        let rest = filtered_spans(spans.drop_last(), f);
        if span_matches(spans.last(), f) {
            rest.push(spans.last())
        } else {
            rest
        }
    }
}

/// Filter conjunction: the filtered sequence holds a span exactly when the
/// store holds it and it satisfies every set criterion.
pub proof fn lemma_filter_conjunction(spans: Seq<Span>, f: SpanFilter)
    ensures
        forall|s: Span|
            #[trigger] filtered_spans(spans, f).contains(s) <==> spans.contains(s)
                && span_matches(s, f),
    decreases spans.len(),
{
    if spans.len() > 0 {
        lemma_filter_conjunction(spans.drop_last(), f);
        let shorter = spans.drop_last();
        let rest = filtered_spans(shorter, f);
        let res = filtered_spans(spans, f);
        let last = spans.last();
        assert forall|s: Span| #[trigger] res.contains(s) <==> spans.contains(s) && span_matches(
            s,
            f,
        ) by {
            if res.contains(s) {
                let a = choose|a: int| 0 <= a < res.len() && res[a] == s;
                if span_matches(last, f) && a == res.len() - 1 {
                    assert(s == last);
                    assert(spans[spans.len() - 1] == s);
                    assert(spans.contains(s));
                } else {
                    assert(rest[a] == s);
                    assert(rest.contains(s));
                    assert(shorter.contains(s));
                    let b = choose|b: int| 0 <= b < shorter.len() && shorter[b] == s;
                    assert(spans[b] == s);
                    assert(spans.contains(s));
                }
            }
            if spans.contains(s) && span_matches(s, f) {
                let b = choose|b: int| 0 <= b < spans.len() && spans[b] == s;
                if b < spans.len() - 1 {
                    assert(shorter[b] == s);
                    assert(shorter.contains(s));
                    assert(rest.contains(s));
                    let a = choose|a: int| 0 <= a < rest.len() && rest[a] == s;
                    assert(res[a] == s);
                    assert(res.contains(s));
                } else {
                    assert(s == last);
                    assert(res[res.len() - 1] == s);
                    assert(res.contains(s));
                }
            }
        }
    }
}

/// The all-unset filter keeps every span, each exactly once, in order.
pub proof fn lemma_filter_all_unset(spans: Seq<Span>, f: SpanFilter)
    requires
        f.model is None,
        f.status is None,
        f.since is None,
        f.until is None,
        f.name_contains is None,
    ensures
        filtered_spans(spans, f) == spans,
    decreases spans.len(),
{
    if spans.len() > 0 {
        lemma_filter_all_unset(spans.drop_last(), f);
        assert(span_matches(spans.last(), f));
        assert(spans.drop_last().push(spans.last()) =~= spans);
    }
}

// ---------------------------------------------------------------------------
// Preservation of well-formedness by the model operations.
// ---------------------------------------------------------------------------

/// A fresh insert preserves well-formedness.
pub proof fn lemma_insert_fresh_wf(m: StoreModel, span: Span)
    requires
        m.wf(),
        !m.has_span(span.id),
    ensures
        m.insert_fresh(span).wf(),
{
    let r = m.insert_fresh(span);
    let tid = span.trace_id;
    assert(forall|t2: TraceId|
        #[trigger] trace_projection(m.spans.push(span), t2) == if tid == t2 {
            trace_projection(m.spans, t2).push(span.id)
        } else {
            trace_projection(m.spans, t2)
        }) by {
        assert forall|t2: TraceId| true implies #[trigger] trace_projection(m.spans.push(span), t2)
            == if tid == t2 {
            trace_projection(m.spans, t2).push(span.id)
        } else {
            trace_projection(m.spans, t2)
        } by {
            lemma_projection_push(m.spans, span, t2);
        }
    }
    assert(span_ids_unique(r.spans)) by {
        assert(forall|j: int| 0 <= j < m.spans.len() ==> r.spans[j] == m.spans[j]);
        assert(r.spans[r.spans.len() - 1] == span);
    }
    if m.has_trace(tid) {
        let k = m.trace_index(tid);
        assert(0 <= k < m.traces.len() && m.traces[k].0 == tid);
        assert(trace_ids_unique(r.traces));
        assert(forall|k2: int|
            0 <= k2 < r.traces.len() && k2 != k ==> r.traces[k2] == m.traces[k2]);
        assert(forall|k2: int|
            0 <= k2 < r.traces.len() && k2 != k ==> #[trigger] r.traces[k2].0 != tid);
        assert(r.traces[k].1 == trace_projection(r.spans, tid));
        assert(forall|i: int|
            0 <= i < r.spans.len() ==> r.has_trace(#[trigger] r.spans[i].trace_id)) by {
            assert forall|i: int| 0 <= i < r.spans.len() implies r.has_trace(
                #[trigger] r.spans[i].trace_id,
            ) by {
                if i < m.spans.len() {
                    let t2 = m.spans[i].trace_id;
                    assert(m.has_trace(t2));
                    let k2 = m.trace_index(t2);
                    assert(r.traces[k2].0 == t2);
                } else {
                    assert(r.traces[k].0 == tid);
                }
            }
        }
    } else {
        let kn = m.traces.len() as int;
        assert(r.traces[kn] == (tid, seq![span.id]));
        assert(forall|k2: int| 0 <= k2 < kn ==> r.traces[k2] == m.traces[k2]);
        assert(forall|k2: int| 0 <= k2 < kn ==> #[trigger] m.traces[k2].0 != tid) by {
            assert forall|k2: int| 0 <= k2 < kn implies #[trigger] m.traces[k2].0 != tid by {
                if m.traces[k2].0 == tid {
                    assert(m.has_trace(tid));
                }
            }
        }
        assert(trace_ids_unique(r.traces));
        assert(trace_projection(m.spans, tid) =~= Seq::<SpanId>::empty()) by {
            let proj = trace_projection(m.spans, tid);
            if proj.len() > 0 {
                assert(proj.contains(proj[0]));
                lemma_projection_contains(m.spans, tid, proj[0]);
                let i = choose|i: int|
                    0 <= i < m.spans.len() && m.spans[i].trace_id == tid && m.spans[i].id
                        == proj[0];
                assert(m.has_trace(m.spans[i].trace_id));
            }
        }
        assert(r.traces[kn].1 == trace_projection(r.spans, tid)) by {
            assert(trace_projection(r.spans, tid) =~= seq![span.id]);
        }
        assert(forall|i: int|
            0 <= i < r.spans.len() ==> r.has_trace(#[trigger] r.spans[i].trace_id)) by {
            assert forall|i: int| 0 <= i < r.spans.len() implies r.has_trace(
                #[trigger] r.spans[i].trace_id,
            ) by {
                if i < m.spans.len() {
                    let t2 = m.spans[i].trace_id;
                    assert(m.has_trace(t2));
                    let k2 = m.trace_index(t2);
                    assert(r.traces[k2].0 == t2);
                } else {
                    assert(r.traces[kn].0 == tid);
                }
            }
        }
    }
}

/// Deleting one span preserves well-formedness, removes exactly that span,
/// and touches no other span.
#[verifier::rlimit(60)]
pub proof fn lemma_remove_span_wf(m: StoreModel, id: SpanId)
    requires
        m.wf(),
    ensures
        m.remove_span(id).wf(),
        !m.remove_span(id).has_span(id),
        forall|id2: SpanId|
            id2 != id ==> (#[trigger] m.remove_span(id).has_span(id2) <==> m.has_span(id2)),
        forall|id2: SpanId|
            id2 != id && m.has_span(id2) ==> #[trigger] m.remove_span(id).span_at(id2)
                == m.span_at(id2),
        m.has_span(id) ==> m.remove_span(id).trace_spans(m.span_at(id).trace_id) == ids_without(
            m.trace_spans(m.span_at(id).trace_id),
            id,
        ),
        m.has_span(id) ==> (m.remove_span(id).has_trace(m.span_at(id).trace_id) <==> ids_without(
            m.trace_spans(m.span_at(id).trace_id),
            id,
        ).len() > 0),
        forall|t2: TraceId|
            !m.has_span(id) || t2 != m.span_at(id).trace_id ==> (#[trigger] m.remove_span(
                id,
            ).trace_spans(t2)) == m.trace_spans(t2),
        forall|t2: TraceId|
            !m.has_span(id) || t2 != m.span_at(id).trace_id ==> ((#[trigger] m.remove_span(
                id,
            ).has_trace(t2)) <==> m.has_trace(t2)),
{
    let r = m.remove_span(id);
    if m.has_span(id) {
        let i = m.span_index(id);
        assert(0 <= i < m.spans.len() && m.spans[i].id == id);
        let tid = m.spans[i].trace_id;
        assert(m.has_trace(tid));
        let k = m.trace_index(tid);
        assert(0 <= k < m.traces.len() && m.traces[k].0 == tid);
        let spans2 = m.spans.remove(i);
        assert(forall|t2: TraceId|
            #[trigger] trace_projection(spans2, t2) == if tid == t2 {
                ids_without(trace_projection(m.spans, t2), id)
            } else {
                trace_projection(m.spans, t2)
            }) by {
            assert forall|t2: TraceId| true implies #[trigger] trace_projection(spans2, t2) == if
            tid == t2 {
                ids_without(trace_projection(m.spans, t2), id)
            } else {
                trace_projection(m.spans, t2)
            } by {
                lemma_projection_remove(m.spans, i, t2);
            }
        }
        assert(span_ids_unique(spans2)) by {
            assert(forall|a: int| 0 <= a < i ==> spans2[a] == m.spans[a]);
            assert(forall|a: int| i <= a < spans2.len() ==> spans2[a] == m.spans[a + 1]);
        }
        assert(!r.has_span(id)) by {
            if r.has_span(id) {
                let a = choose|a: int| 0 <= a < spans2.len() && spans2[a].id == id;
                if a < i {
                    assert(m.spans[a].id == m.spans[i].id);
                } else {
                    assert(m.spans[a + 1].id == m.spans[i].id);
                }
            }
        }
        let ids2 = ids_without(m.traces[k].1, id);
        assert(m.traces[k].1 == trace_projection(m.spans, tid));
        assert(ids2 == trace_projection(spans2, tid));
        // Spans of other ids survive with their content.
        assert(forall|id2: SpanId|
            id2 != id ==> (#[trigger] r.has_span(id2) <==> m.has_span(id2))) by {
            assert forall|id2: SpanId| id2 != id implies (#[trigger] r.has_span(id2)
                <==> m.has_span(id2)) by {
                if m.has_span(id2) {
                    let b = m.span_index(id2);
                    if b < i {
                        assert(spans2[b].id == id2);
                    } else {
                        assert(b != i);
                        assert(spans2[b - 1] == m.spans[b]);
                    }
                }
                if r.has_span(id2) {
                    let a = choose|a: int| 0 <= a < spans2.len() && spans2[a].id == id2;
                    if a < i {
                        assert(m.spans[a].id == id2);
                    } else {
                        assert(m.spans[a + 1].id == id2);
                    }
                }
            }
        }
        assert(forall|id2: SpanId|
            id2 != id && m.has_span(id2) ==> #[trigger] r.span_at(id2) == m.span_at(id2)) by {
            assert forall|id2: SpanId| id2 != id && m.has_span(id2) implies #[trigger] r.span_at(
                id2,
            ) == m.span_at(id2) by {
                let b = m.span_index(id2);
                assert(0 <= b < m.spans.len() && m.spans[b].id == id2);
                assert(b != i);
                assert(r.spans == spans2);
                if b < i {
                    assert(spans2[b] == m.spans[b]);
                    lemma_span_index_is(r, b);
                    assert(r.span_at(id2) == m.spans[b]);
                } else {
                    assert(spans2[b - 1] == m.spans[b]);
                    lemma_span_index_is(r, b - 1);
                    assert(r.span_at(id2) == m.spans[b]);
                }
            }
        }
        if ids2.len() == 0 {
            let traces2 = m.traces.remove(k);
            assert(r.traces == traces2);
            assert(trace_ids_unique(traces2)) by {
                assert(forall|a: int| 0 <= a < k ==> traces2[a] == m.traces[a]);
                assert(forall|a: int| k <= a < traces2.len() ==> traces2[a] == m.traces[a + 1]);
            }
            assert(forall|k2: int|
                0 <= k2 < traces2.len() ==> #[trigger] traces2[k2].1 == trace_projection(
                    spans2,
                    traces2[k2].0,
                ) && traces2[k2].1.len() > 0) by {
                assert forall|k2: int| 0 <= k2 < traces2.len() implies #[trigger] traces2[k2].1
                    == trace_projection(spans2, traces2[k2].0) && traces2[k2].1.len() > 0 by {
                    if k2 < k {
                        assert(traces2[k2] == m.traces[k2]);
                        assert(m.traces[k2].0 != tid);
                    } else {
                        assert(traces2[k2] == m.traces[k2 + 1]);
                        assert(m.traces[k2 + 1].0 != tid);
                    }
                }
            }
            assert(forall|a: int|
                0 <= a < spans2.len() ==> r.has_trace(#[trigger] spans2[a].trace_id)) by {
                assert forall|a: int| 0 <= a < spans2.len() implies r.has_trace(
                    #[trigger] spans2[a].trace_id,
                ) by {
                    let t2 = spans2[a].trace_id;
                    if t2 == tid {
                        lemma_projection_contains(spans2, tid, spans2[a].id);
                        assert(trace_projection(spans2, tid).contains(spans2[a].id));
                        assert(ids2.len() > 0);
                    } else {
                        let b = m.trace_index(t2);
                        assert(0 <= b < m.traces.len() && m.traces[b].0 == t2) by {
                            if a < i {
                                assert(m.spans[a].trace_id == t2);
                                assert(m.has_trace(t2));
                            } else {
                                assert(m.spans[a + 1].trace_id == t2);
                                assert(m.has_trace(t2));
                            }
                        }
                        assert(b != k);
                        if b < k {
                            assert(traces2[b].0 == t2);
                        } else {
                            assert(traces2[b - 1].0 == t2);
                        }
                    }
                }
            }
            assert(!r.has_trace(tid)) by {
                if r.has_trace(tid) {
                    let a = choose|a: int| 0 <= a < traces2.len() && traces2[a].0 == tid;
                    if a < k {
                        assert(m.traces[a].0 == m.traces[k].0);
                    } else {
                        assert(m.traces[a + 1].0 == m.traces[k].0);
                    }
                }
            }
            assert(m.trace_spans(tid) == m.traces[k].1);
            assert(r.trace_spans(tid) =~= ids_without(m.trace_spans(tid), id));
            assert forall|t2: TraceId| t2 != tid implies (#[trigger] r.trace_spans(t2))
                == m.trace_spans(t2) && ((#[trigger] r.has_trace(t2)) <==> m.has_trace(t2)) by {
                if m.has_trace(t2) {
                    let b = m.trace_index(t2);
                    assert(b != k);
                    if b < k {
                        assert(traces2[b] == m.traces[b]);
                        lemma_trace_index_is(r, b);
                    } else {
                        assert(traces2[b - 1] == m.traces[b]);
                        lemma_trace_index_is(r, b - 1);
                    }
                } else {
                    if r.has_trace(t2) {
                        let a = choose|a: int| 0 <= a < traces2.len() && traces2[a].0 == t2;
                        if a < k {
                            assert(m.traces[a].0 == t2);
                            assert(m.has_trace(t2));
                        } else {
                            assert(m.traces[a + 1].0 == t2);
                            assert(m.has_trace(t2));
                        }
                    }
                }
            }
        } else {
            let traces2 = m.traces.update(k, (tid, ids2));
            assert(r.traces == traces2);
            assert(trace_ids_unique(traces2)) by {
                assert(forall|a: int| 0 <= a < traces2.len() && a != k ==> traces2[a]
                    == m.traces[a]);
                assert(traces2[k].0 == m.traces[k].0);
            }
            assert(forall|k2: int|
                0 <= k2 < traces2.len() ==> #[trigger] traces2[k2].1 == trace_projection(
                    spans2,
                    traces2[k2].0,
                ) && traces2[k2].1.len() > 0) by {
                assert forall|k2: int| 0 <= k2 < traces2.len() implies #[trigger] traces2[k2].1
                    == trace_projection(spans2, traces2[k2].0) && traces2[k2].1.len() > 0 by {
                    if k2 != k {
                        assert(traces2[k2] == m.traces[k2]);
                        assert(m.traces[k2].0 != tid);
                    }
                }
            }
            assert(forall|a: int|
                0 <= a < spans2.len() ==> r.has_trace(#[trigger] spans2[a].trace_id)) by {
                assert forall|a: int| 0 <= a < spans2.len() implies r.has_trace(
                    #[trigger] spans2[a].trace_id,
                ) by {
                    let t2 = spans2[a].trace_id;
                    if t2 == tid {
                        assert(r.traces[k].0 == t2);
                    } else {
                        if a < i {
                            assert(m.spans[a].trace_id == t2);
                        } else {
                            assert(m.spans[a + 1].trace_id == t2);
                        }
                        assert(m.has_trace(t2));
                        let b = m.trace_index(t2);
                        assert(b != k);
                        assert(traces2[b] == m.traces[b]);
                        assert(r.traces[b].0 == t2);
                    }
                }
            }
            assert(r.traces[k].0 == tid);
            lemma_trace_index_is(r, k);
            assert(m.trace_spans(tid) == m.traces[k].1);
            assert(r.trace_spans(tid) == ids_without(m.trace_spans(tid), id));
            assert forall|t2: TraceId| t2 != tid implies (#[trigger] r.trace_spans(t2))
                == m.trace_spans(t2) && ((#[trigger] r.has_trace(t2)) <==> m.has_trace(t2)) by {
                if m.has_trace(t2) {
                    let b = m.trace_index(t2);
                    assert(b != k);
                    assert(traces2[b] == m.traces[b]);
                    lemma_trace_index_is(r, b);
                } else {
                    if r.has_trace(t2) {
                        let a = choose|a: int| 0 <= a < traces2.len() && traces2[a].0 == t2;
                        assert(a != k);
                        assert(m.traces[a].0 == t2);
                        assert(m.has_trace(t2));
                    }
                }
            }
        }
        assert forall|t2: TraceId| t2 != m.span_at(id).trace_id implies (
        #[trigger] m.remove_span(id).trace_spans(t2)) == m.trace_spans(t2) by {
            assert(m.span_at(id).trace_id == tid);
            assert(r.trace_spans(t2) == m.trace_spans(t2));
        }
        assert forall|t2: TraceId| t2 != m.span_at(id).trace_id implies ((
        #[trigger] m.remove_span(id).has_trace(t2)) <==> m.has_trace(t2)) by {
            assert(m.span_at(id).trace_id == tid);
            if m.has_trace(t2) {
                let b = m.trace_index(t2);
                assert(b != k);
                if ids2.len() == 0 {
                    if b < k {
                        assert(r.traces[b].0 == t2);
                    } else {
                        assert(r.traces[b - 1].0 == t2);
                    }
                } else {
                    assert(r.traces[b].0 == t2);
                }
                assert(r.has_trace(t2));
            }
            if r.has_trace(t2) {
                let a = choose|a: int| 0 <= a < r.traces.len() && r.traces[a].0 == t2;
                if ids2.len() == 0 {
                    if a < k {
                        assert(m.traces[a].0 == t2);
                    } else {
                        assert(m.traces[a + 1].0 == t2);
                    }
                } else {
                    assert(a != k);
                    assert(m.traces[a].0 == t2);
                }
                assert(m.has_trace(t2));
            }
        }
    } else {
        assert(m.remove_span(id) == m);
    }
}

/// Deleting a whole trace preserves well-formedness and removes exactly the
/// trace's spans.
pub proof fn lemma_remove_trace_wf(m: StoreModel, tid: TraceId)
    requires
        m.wf(),
    ensures
        m.remove_trace(tid).wf(),
        !m.remove_trace(tid).has_trace(tid),
        m.remove_trace(tid).trace_spans(tid) == Seq::<SpanId>::empty(),
        forall|id: SpanId|
            m.trace_spans(tid).contains(id) ==> !(#[trigger] m.remove_trace(tid).has_span(id)),
{
    let r = m.remove_trace(tid);
    if m.has_trace(tid) {
        let k = m.trace_index(tid);
        assert(0 <= k < m.traces.len() && m.traces[k].0 == tid);
        lemma_without_trace(m.spans, tid);
        let spans2 = spans_without_trace(m.spans, tid);
        let traces2 = m.traces.remove(k);
        assert(trace_ids_unique(traces2)) by {
            assert(forall|a: int| 0 <= a < k ==> traces2[a] == m.traces[a]);
            assert(forall|a: int| k <= a < traces2.len() ==> traces2[a] == m.traces[a + 1]);
        }
        assert(!r.has_trace(tid)) by {
            if r.has_trace(tid) {
                let a = choose|a: int| 0 <= a < traces2.len() && traces2[a].0 == tid;
                if a < k {
                    assert(m.traces[a].0 == m.traces[k].0);
                } else {
                    assert(m.traces[a + 1].0 == m.traces[k].0);
                }
            }
        }
        assert(forall|k2: int|
            0 <= k2 < traces2.len() ==> #[trigger] traces2[k2].1 == trace_projection(
                spans2,
                traces2[k2].0,
            ) && traces2[k2].1.len() > 0) by {
            assert forall|k2: int| 0 <= k2 < traces2.len() implies #[trigger] traces2[k2].1
                == trace_projection(spans2, traces2[k2].0) && traces2[k2].1.len() > 0 by {
                if k2 < k {
                    assert(traces2[k2] == m.traces[k2]);
                    assert(m.traces[k2].0 != tid);
                } else {
                    assert(traces2[k2] == m.traces[k2 + 1]);
                    assert(m.traces[k2 + 1].0 != tid);
                }
            }
        }
        assert(forall|a: int|
            0 <= a < spans2.len() ==> r.has_trace(#[trigger] spans2[a].trace_id)) by {
            assert forall|a: int| 0 <= a < spans2.len() implies r.has_trace(
                #[trigger] spans2[a].trace_id,
            ) by {
                let t2 = spans2[a].trace_id;
                assert(m.spans.contains(spans2[a]) && t2 != tid);
                let j = choose|j: int| 0 <= j < m.spans.len() && m.spans[j] == spans2[a];
                assert(m.spans[j].trace_id == t2);
                assert(m.has_trace(t2));
                let b = m.trace_index(t2);
                assert(b != k);
                assert(r.traces == traces2);
                if b < k {
                    assert(traces2[b] == m.traces[b]);
                    assert(r.traces[b].0 == t2);
                } else {
                    assert(traces2[b - 1] == m.traces[b]);
                    assert(r.traces[b - 1].0 == t2);
                }
            }
        }
        assert(forall|id: SpanId|
            m.trace_spans(tid).contains(id) ==> !(#[trigger] r.has_span(id))) by {
            assert forall|id: SpanId| m.trace_spans(tid).contains(id) implies !(
            #[trigger] r.has_span(id)) by {
                assert(trace_projection(m.spans, tid).contains(id));
                lemma_projection_contains(m.spans, tid, id);
                let j = choose|j: int|
                    0 <= j < m.spans.len() && m.spans[j].trace_id == tid && m.spans[j].id == id;
                if r.has_span(id) {
                    let a = choose|a: int| 0 <= a < spans2.len() && spans2[a].id == id;
                    assert(m.spans.contains(spans2[a]) && spans2[a].trace_id != tid);
                    let j2 = choose|j2: int| 0 <= j2 < m.spans.len() && m.spans[j2] == spans2[a];
                    assert(m.spans[j2].id == m.spans[j].id);
                    assert(m.spans[j2].trace_id != tid);
                    assert(j2 != j);
                    if j2 < j {
                        assert(m.spans[j2].id != m.spans[j].id);
                    } else {
                        assert(m.spans[j].id != m.spans[j2].id);
                    }
                }
            }
        }
    }
}

/// Index consistency: a well-formed store indexes exactly the traces that
/// still own a live span, and records for each exactly the live span ids of
/// that trace, in insertion order.
pub proof fn lemma_index_consistency(m: StoreModel)
    requires
        m.wf(),
    ensures
        forall|tid: TraceId|
            #[trigger] m.has_trace(tid) <==> exists|i: int|
                0 <= i < m.spans.len() && m.spans[i].trace_id == tid,
        forall|tid: TraceId| #[trigger] m.trace_spans(tid) == trace_projection(m.spans, tid),
{
    assert forall|tid: TraceId| #[trigger] m.has_trace(tid) <==> exists|i: int|
        0 <= i < m.spans.len() && m.spans[i].trace_id == tid by {
        if m.has_trace(tid) {
            let k = m.trace_index(tid);
            let ids = m.traces[k].1;
            assert(ids == trace_projection(m.spans, tid));
            assert(ids.len() > 0);
            assert(ids.contains(ids[0]));
            lemma_projection_contains(m.spans, tid, ids[0]);
        }
        if exists|i: int| 0 <= i < m.spans.len() && m.spans[i].trace_id == tid {
            let i = choose|i: int| 0 <= i < m.spans.len() && m.spans[i].trace_id == tid;
            assert(m.has_trace(m.spans[i].trace_id));
        }
    }
    assert forall|tid: TraceId| #[trigger] m.trace_spans(tid) == trace_projection(
        m.spans,
        tid,
    ) by {
        if m.has_trace(tid) {
            let k = m.trace_index(tid);
            assert(m.traces[k].1 == trace_projection(m.spans, tid));
        } else {
            let proj = trace_projection(m.spans, tid);
            if proj.len() > 0 {
                assert(proj.contains(proj[0]));
                lemma_projection_contains(m.spans, tid, proj[0]);
                let i = choose|i: int|
                    0 <= i < m.spans.len() && m.spans[i].trace_id == tid && m.spans[i].id
                        == proj[0];
                assert(m.has_trace(m.spans[i].trace_id));
            }
            assert(proj =~= Seq::<SpanId>::empty());
        }
    }
}

/// Two models with equal secondary indexes (the first one's keys unique)
/// agree on every trace lookup.
pub proof fn lemma_same_traces(m0: StoreModel, m1: StoreModel)
    requires
        m1.traces == m0.traces,
        trace_ids_unique(m0.traces),
    ensures
        forall|t: TraceId| (#[trigger] m1.has_trace(t)) <==> m0.has_trace(t),
        forall|t: TraceId| #[trigger] m1.trace_spans(t) == m0.trace_spans(t),
{
    assert forall|t: TraceId| (#[trigger] m1.has_trace(t)) <==> m0.has_trace(t) by {
        if m1.has_trace(t) {
            let k = m1.trace_index(t);
            assert(m0.traces[k].0 == t);
        }
        if m0.has_trace(t) {
            let k = m0.trace_index(t);
            assert(m1.traces[k].0 == t);
        }
    }
    assert forall|t: TraceId| #[trigger] m1.trace_spans(t) == m0.trace_spans(t) by {
        if m1.has_trace(t) {
            let k1 = m1.trace_index(t);
            let k0 = m0.trace_index(t);
            assert(m0.traces[k1].0 == t);
            if k1 != k0 {
                if k1 < k0 {
                    assert(m0.traces[k1].0 != m0.traces[k0].0);
                } else {
                    assert(m0.traces[k0].0 != m0.traces[k1].0);
                }
            }
        } else {
            if m0.has_trace(t) {
                let k = m0.trace_index(t);
                assert(m1.traces[k].0 == t);
            }
        }
    }
}

/// Updating one span in place, keeping its id and trace id, preserves
/// well-formedness.
pub proof fn lemma_update_span_wf(m: StoreModel, i: int, s2: Span)
    requires
        m.wf(),
        0 <= i < m.spans.len(),
        s2.id == m.spans[i].id,
        s2.trace_id == m.spans[i].trace_id,
    ensures
        (StoreModel { spans: m.spans.update(i, s2), traces: m.traces }).wf(),
{
    let r = StoreModel { spans: m.spans.update(i, s2), traces: m.traces };
    assert(forall|t2: TraceId|
        #[trigger] trace_projection(r.spans, t2) == trace_projection(m.spans, t2)) by {
        assert forall|t2: TraceId| true implies #[trigger] trace_projection(r.spans, t2)
            == trace_projection(m.spans, t2) by {
            lemma_projection_update(m.spans, i, s2, t2);
        }
    }
    assert(span_ids_unique(r.spans)) by {
        assert(forall|j: int| 0 <= j < m.spans.len() ==> r.spans[j].id == m.spans[j].id);
    }
    assert(forall|j: int|
        0 <= j < r.spans.len() ==> r.has_trace(#[trigger] r.spans[j].trace_id)) by {
        assert forall|j: int| 0 <= j < r.spans.len() implies r.has_trace(
            #[trigger] r.spans[j].trace_id,
        ) by {
            assert(r.spans[j].trace_id == m.spans[j].trace_id);
            assert(m.has_trace(m.spans[j].trace_id));
            let k = m.trace_index(m.spans[j].trace_id);
            assert(r.traces[k].0 == r.spans[j].trace_id);
        }
    }
}

// ---------------------------------------------------------------------------
// The executable store.
// ---------------------------------------------------------------------------

impl SpanStore {
    /// A store with no spans and no traces.
    pub fn new() -> (r: SpanStore)
        ensures
            r@ == StoreModel::empty(),
            r@.wf(),
    {
        let r = SpanStore { spans: Vec::new(), traces: Vec::new() };
        proof {
            assert(r@.spans =~= Seq::<Span>::empty());
            assert(r@.traces =~= Seq::<(TraceId, Seq<SpanId>)>::empty());
            assert(r@ =~= StoreModel::empty());
        }
        r
    }

    /// Position of the span with id `id` in the primary index, if any.
    fn find_span_index(&self, id: SpanId) -> (r: Option<usize>)
        ensures
            match r {
                Some(i) => i < self@.spans.len() && self@.spans[i as int].id == id,
                None => !self@.has_span(id),
            },
    {
        let mut i: usize = 0;
        while i < self.spans.len()
            invariant
                i <= self@.spans.len(),
                forall|j: int| 0 <= j < i ==> self@.spans[j].id != id,
            decreases self@.spans.len() - i,
        {
            if self.spans[i].id == id {
                return Some(i);
            }
            i = i + 1;
        }
        None
    }

    /// Position of the entry for `tid` in the secondary index, if any.
    fn find_trace_index(&self, tid: TraceId) -> (r: Option<usize>)
        ensures
            match r {
                Some(k) => k < self@.traces.len() && self@.traces[k as int].0 == tid,
                None => !self@.has_trace(tid),
            },
    {
        let mut k: usize = 0;
        while k < self.traces.len()
            invariant
                k <= self@.traces.len(),
                self@.traces.len() == self.traces@.len(),
                forall|j: int| 0 <= j < k ==> self@.traces[j].0 != tid,
            decreases self@.traces.len() - k,
        {
            proof {
                assert(self@.traces[k as int].0 == self.traces@[k as int].trace_id);
            }
            if self.traces[k].trace_id == tid {
                return Some(k);
            }
            k = k + 1;
        }
        None
    }

    /// Read-only point lookup; absence is an ordinary outcome, not an error.
    pub fn get(&self, id: SpanId) -> (r: Option<&Span>)
        requires
            self@.wf(),
        ensures
            match r {
                Some(s) => self@.has_span(id) && *s == self@.span_at(id),
                None => !self@.has_span(id),
            },
    {
        match self.find_span_index(id) {
            Some(i) => {
                proof {
                    lemma_span_index_is(self@, i as int);
                }
                Some(&self.spans[i])
            },
            None => None,
        }
    }

    /// Number of live spans.
    pub fn span_count(&self) -> (r: usize)
        ensures
            r == self@.spans.len(),
    {
        self.spans.len()
    }

    /// Number of traces that still own at least one live span.
    pub fn trace_count(&self) -> (r: usize)
        ensures
            r == self@.traces.len(),
    {
        self.traces.len()
    }

    /// The recorded insertion-ordered span ids of a trace; empty when the
    /// trace is unknown.
    pub fn spans_for_trace(&self, trace_id: TraceId) -> (r: Vec<SpanId>)
        requires
            self@.wf(),
        ensures
            r@ == self@.trace_spans(trace_id),
            r@ == trace_projection(self@.spans, trace_id),
    {
        proof {
            lemma_index_consistency(self@);
        }
        match self.find_trace_index(trace_id) {
            Some(k) => {
                proof {
                    lemma_trace_index_is(self@, k as int);
                }
                let ids = &self.traces[k].span_ids;
                let mut out: Vec<SpanId> = Vec::new();
                let mut i: usize = 0;
                while i < ids.len()
                    invariant
                        i <= ids@.len(),
                        out@ == ids@.take(i as int),
                    decreases ids@.len() - i,
                {
                    out.push(ids[i]);
                    proof {
                        assert(out@ =~= ids@.take(i + 1));
                    }
                    i = i + 1;
                }
                proof {
                    assert(out@ =~= ids@);
                    assert(self@.traces[k as int].1 == ids@);
                    assert(out@ == self@.trace_spans(trace_id));
                    assert(self@.trace_spans(trace_id) == trace_projection(
                        self@.spans,
                        trace_id,
                    ));
                }
                out
            },
            None => {
                let out: Vec<SpanId> = Vec::new();
                proof {
                    assert(out@ =~= Seq::<SpanId>::empty());
                    assert(self@.trace_spans(trace_id) == trace_projection(
                        self@.spans,
                        trace_id,
                    ));
                    assert(self@.trace_spans(trace_id) =~= Seq::<SpanId>::empty());
                }
                out
            },
        }
    }

    /// The trace ids of the secondary index, in index order.
    pub fn trace_ids(&self) -> (r: Vec<TraceId>)
        ensures
            r@ == self@.trace_ids(),
    {
        let mut out: Vec<TraceId> = Vec::new();
        let mut k: usize = 0;
        while k < self.traces.len()
            invariant
                k <= self@.traces.len(),
                self@.traces.len() == self.traces@.len(),
                out@ == self@.trace_ids().take(k as int),
            decreases self@.traces.len() - k,
        {
            out.push(self.traces[k].trace_id);
            proof {
                assert(self@.trace_ids()[k as int] == self@.traces[k as int].0);
                assert(out@ =~= self@.trace_ids().take(k + 1));
            }
            k = k + 1;
        }
        proof {
            assert(out@ =~= self@.trace_ids());
        }
        out
    }

    /// Copies of every live span, in insertion order.
    pub fn all_spans(&self) -> (r: Vec<Span>)
        ensures
            r@ == self@.spans,
    {
        let mut out: Vec<Span> = Vec::new();
        let mut i: usize = 0;
        while i < self.spans.len()
            invariant
                i <= self@.spans.len(),
                out@ == self@.spans.take(i as int),
            decreases self@.spans.len() - i,
        {
            out.push(self.spans[i].duplicate());
            proof {
                assert(out@ =~= self@.spans.take(i + 1));
            }
            i = i + 1;
        }
        proof {
            assert(out@ =~= self@.spans);
        }
        out
    }

    /// Deletes a single span by id, striking it from both indexes and
    /// dropping its trace's entry when that entry becomes empty. Returns
    /// whether anything was deleted.
    pub fn delete_span(&mut self, id: SpanId) -> (deleted: bool)
        requires
            old(self)@.wf(),
        ensures
            final(self)@.wf(),
            deleted == old(self)@.has_span(id),
            final(self)@ == old(self)@.remove_span(id),
            !final(self)@.has_span(id),
            old(self)@.has_span(id) ==> final(self)@.trace_spans(old(self)@.span_at(id).trace_id)
                == ids_without(old(self)@.trace_spans(old(self)@.span_at(id).trace_id), id),
            old(self)@.has_span(id) ==> (final(self)@.has_trace(old(self)@.span_at(id).trace_id)
                <==> ids_without(
                old(self)@.trace_spans(old(self)@.span_at(id).trace_id),
                id,
            ).len() > 0),
            forall|t2: TraceId|
                !old(self)@.has_span(id) || t2 != old(self)@.span_at(id).trace_id ==> (
                #[trigger] final(self)@.trace_spans(t2)) == old(self)@.trace_spans(t2),
            forall|t2: TraceId|
                !old(self)@.has_span(id) || t2 != old(self)@.span_at(id).trace_id ==> ((
                #[trigger] final(self)@.has_trace(t2)) <==> old(self)@.has_trace(t2)),
    {
        proof {
            lemma_remove_span_wf(old(self)@, id);
        }
        let ghost m0 = self@;
        match self.find_span_index(id) {
            None => {
                proof {
                    assert(m0.remove_span(id) == m0);
                }
                false
            },
            Some(i) => {
                proof {
                    lemma_span_index_is(m0, i as int);
                }
                let tid = self.spans[i].trace_id;
                let _removed = self.spans.remove(i);
                proof {
                    assert(self@.traces == m0.traces);
                }
                match self.find_trace_index(tid) {
                    None => {
                        proof {
                            assert(!m0.has_trace(tid));
                            assert(self@ =~= m0.remove_span(id));
                        }
                    },
                    Some(k) => {
                        proof {
                            lemma_trace_index_is(m0, k as int);
                        }
                        let ghost tv0 = self.traces@;
                        let e = self.traces.remove(k);
                        proof {
                            assert(e == tv0[k as int]);
                            assert(m0.traces[k as int].1 == e.span_ids@);
                        }
                        let ids = &e.span_ids;
                        let mut out: Vec<SpanId> = Vec::new();
                        let mut a: usize = 0;
                        while a < ids.len()
                            invariant
                                a <= ids@.len(),
                                out@ == ids_without(ids@.take(a as int), id),
                            decreases ids@.len() - a,
                        {
                            let v = ids[a];
                            proof {
                                assert(ids@.take(a + 1).drop_last() =~= ids@.take(a as int));
                                assert(ids@.take(a + 1).last() == v);
                            }
                            if v != id {
                                out.push(v);
                            }
                            proof {
                                assert(out@ =~= ids_without(ids@.take(a + 1), id));
                            }
                            a = a + 1;
                        }
                        proof {
                            assert(ids@.take(ids@.len() as int) =~= ids@);
                            assert(out@ == ids_without(m0.traces[k as int].1, id));
                        }
                        if out.len() > 0 {
                            let e2 = TraceEntry { trace_id: tid, span_ids: out };
                            self.traces.insert(k, e2);
                            proof {
                                assert(self.traces@ =~= tv0.update(k as int, e2));
                                assert(self@.traces =~= m0.traces.update(
                                    k as int,
                                    (tid, ids_without(m0.traces[k as int].1, id)),
                                ));
                                assert(self@ =~= m0.remove_span(id));
                            }
                        } else {
                            proof {
                                assert(self@.traces =~= m0.traces.remove(k as int));
                                assert(self@ =~= m0.remove_span(id));
                            }
                        }
                    },
                }
                proof {
                    assert(self@ == m0.remove_span(id));
                    assert forall|t2: TraceId| t2 != m0.span_at(id).trace_id implies (
                    #[trigger] self@.trace_spans(t2)) == m0.trace_spans(t2) by {
                        assert(m0.remove_span(id).trace_spans(t2) == m0.trace_spans(t2));
                    }
                    assert forall|t2: TraceId| t2 != m0.span_at(id).trace_id implies ((
                    #[trigger] self@.has_trace(t2)) <==> m0.has_trace(t2)) by {
                        assert(m0.remove_span(id).has_trace(t2) <==> m0.has_trace(t2));
                    }
                }
                true
            },
        }
    }

    /// Inserts a span under both indexes, last-write-wins on its id, and
    /// returns that id.
    pub fn insert(&mut self, span: Span) -> (id: SpanId)
        requires
            old(self)@.wf(),
        ensures
            final(self)@.wf(),
            id == span.id,
            final(self)@ == old(self)@.insert_span(span),
    {
        let id = span.id;
        let tid = span.trace_id;
        let ghost s = span;
        self.delete_span(id);
        let ghost m1 = self@;
        proof {
            lemma_remove_span_wf(old(self)@, id);
            lemma_insert_fresh_wf(m1, s);
        }
        self.spans.push(span);
        proof {
            assert(self@.traces == m1.traces);
            assert(self@.spans == m1.spans.push(s));
        }
        match self.find_trace_index(tid) {
            Some(k) => {
                proof {
                    assert(m1.traces[k as int].0 == tid);
                    lemma_trace_index_is(m1, k as int);
                }
                let ghost tv0 = self.traces@;
                let mut e = self.traces.remove(k);
                e.span_ids.push(id);
                self.traces.insert(k, e);
                proof {
                    assert(e.span_ids@ == tv0[k as int].span_ids@.push(id));
                    assert(self.traces@ =~= tv0.update(k as int, e));
                    assert(self@.traces =~= m1.traces.update(
                        k as int,
                        (tid, m1.traces[k as int].1.push(id)),
                    ));
                    assert(self@ =~= m1.insert_fresh(s));
                }
            },
            None => {
                proof {
                    assert(!m1.has_trace(tid));
                }
                let mut v: Vec<SpanId> = Vec::new();
                v.push(id);
                self.traces.push(TraceEntry { trace_id: tid, span_ids: v });
                proof {
                    assert(v@ =~= seq![id]);
                    assert(self@.traces =~= m1.traces.push((tid, seq![id])));
                    assert(self@ =~= m1.insert_fresh(s));
                }
            },
        }
        id
    }

    /// Deletes every span of a trace and the trace's index entry; returns
    /// the number of spans removed, 0 when the trace is unknown.
    pub fn delete_trace(&mut self, trace_id: TraceId) -> (count: usize)
        requires
            old(self)@.wf(),
        ensures
            final(self)@.wf(),
            final(self)@ == old(self)@.remove_trace(trace_id),
            count == old(self)@.trace_spans(trace_id).len(),
            !final(self)@.has_trace(trace_id),
            final(self)@.trace_spans(trace_id) == Seq::<SpanId>::empty(),
            forall|id: SpanId|
                old(self)@.trace_spans(trace_id).contains(id) ==> !(#[trigger] final(self)@.has_span(id)),
    {
        proof {
            lemma_remove_trace_wf(old(self)@, trace_id);
        }
        let ghost m0 = self@;
        match self.find_trace_index(trace_id) {
            None => {
                proof {
                    assert(m0.remove_trace(trace_id) == m0);
                    assert(m0.trace_spans(trace_id) =~= Seq::<SpanId>::empty());
                }
                0
            },
            Some(k) => {
                proof {
                    lemma_trace_index_is(m0, k as int);
                }
                let e = self.traces.remove(k);
                let count = e.span_ids.len();
                proof {
                    assert(m0.traces[k as int].1 == e.span_ids@);
                    assert(self@.traces =~= m0.traces.remove(k as int));
                }
                let mut kept: Vec<Span> = Vec::new();
                let mut i: usize = 0;
                while i < self.spans.len()
                    invariant
                        i <= m0.spans.len(),
                        self@.spans == m0.spans,
                        self@.traces == m0.traces.remove(k as int),
                        kept@ == spans_without_trace(m0.spans.take(i as int), trace_id),
                    decreases m0.spans.len() - i,
                {
                    proof {
                        assert(m0.spans.take(i + 1).drop_last() =~= m0.spans.take(i as int));
                        assert(m0.spans.take(i + 1).last() == m0.spans[i as int]);
                    }
                    if self.spans[i].trace_id != trace_id {
                        kept.push(self.spans[i].duplicate());
                    }
                    proof {
                        assert(kept@ =~= spans_without_trace(m0.spans.take(i + 1), trace_id));
                    }
                    i = i + 1;
                }
                proof {
                    assert(m0.spans.take(m0.spans.len() as int) =~= m0.spans);
                    assert(kept@ == spans_without_trace(m0.spans, trace_id));
                }
                self.spans = kept;
                proof {
                    assert(self@ =~= m0.remove_trace(trace_id));
                }
                count
            },
        }
    }

    /// Overwrites the token counters of the span with id `id`; returns
    /// whether the span exists. Nothing else of the store moves.
    pub fn set_token_counts(
        &mut self,
        id: SpanId,
        input: Option<u64>,
        output: Option<u64>,
    ) -> (found: bool)
        requires
            old(self)@.wf(),
        ensures
            final(self)@.wf(),
            found == old(self)@.has_span(id),
            !old(self)@.has_span(id) ==> final(self)@ == old(self)@,
            old(self)@.has_span(id) ==> final(self)@.spans == old(self)@.spans.update(
                old(self)@.span_index(id),
                final(self)@.spans[old(self)@.span_index(id)],
            ) && final(self)@.traces == old(self)@.traces && span_tokens_set_from(
                old(self)@.span_at(id),
                final(self)@.spans[old(self)@.span_index(id)],
                input,
                output,
            ) && final(self)@.span_at(id) == final(self)@.spans[old(self)@.span_index(id)],
            forall|t2: TraceId|
                (#[trigger] final(self)@.trace_spans(t2)) == old(self)@.trace_spans(t2)
                    && (final(self)@.has_trace(t2) <==> old(self)@.has_trace(t2)),
    {
        let ghost m0 = self@;
        match self.find_span_index(id) {
            None => false,
            Some(i) => {
                proof {
                    lemma_span_index_is(m0, i as int);
                }
                let mut s = self.spans.remove(i);
                s.metadata.input_tokens = input;
                s.metadata.output_tokens = output;
                let ghost s2 = s;
                self.spans.insert(i, s);
                proof {
                    assert(self@.spans =~= m0.spans.update(i as int, s2));
                    assert(self@.traces == m0.traces);
                    lemma_update_span_wf(m0, i as int, s2);
                    assert(self@ =~= StoreModel { spans: m0.spans.update(i as int, s2), traces: m0.traces });
                    lemma_span_index_is(self@, i as int);
                    lemma_same_traces(m0, self@);
                }
                true
            },
        }
    }

    /// Transitions the span with id `id` to `Completed` (a no-op on a span
    /// already terminal); returns whether the span exists.
    pub fn complete(&mut self, id: SpanId) -> (found: bool)
        requires
            old(self)@.wf(),
        ensures
            final(self)@.wf(),
            found == old(self)@.has_span(id),
            !old(self)@.has_span(id) ==> final(self)@ == old(self)@,
            old(self)@.has_span(id) ==> final(self)@.spans == old(self)@.spans.update(
                old(self)@.span_index(id),
                final(self)@.spans[old(self)@.span_index(id)],
            ) && final(self)@.traces == old(self)@.traces && span_completed_from(
                old(self)@.span_at(id),
                final(self)@.spans[old(self)@.span_index(id)],
            ) && final(self)@.span_at(id) == final(self)@.spans[old(self)@.span_index(id)],
            forall|t2: TraceId|
                (#[trigger] final(self)@.trace_spans(t2)) == old(self)@.trace_spans(t2)
                    && (final(self)@.has_trace(t2) <==> old(self)@.has_trace(t2)),
    {
        let ghost m0 = self@;
        match self.find_span_index(id) {
            None => false,
            Some(i) => {
                proof {
                    lemma_span_index_is(m0, i as int);
                }
                let mut s = self.spans.remove(i);
                s.complete();
                let ghost s2 = s;
                self.spans.insert(i, s);
                proof {
                    assert(self@.spans =~= m0.spans.update(i as int, s2));
                    assert(self@.traces == m0.traces);
                    lemma_update_span_wf(m0, i as int, s2);
                    assert(self@ =~= StoreModel { spans: m0.spans.update(i as int, s2), traces: m0.traces });
                    lemma_span_index_is(self@, i as int);
                    lemma_same_traces(m0, self@);
                }
                true
            },
        }
    }

    /// Transitions the span with id `id` to `Failed` with the given message
    /// (a no-op on a span already terminal); returns whether the span exists.
    pub fn fail(&mut self, id: SpanId, error: String) -> (found: bool)
        requires
            old(self)@.wf(),
        ensures
            final(self)@.wf(),
            found == old(self)@.has_span(id),
            !old(self)@.has_span(id) ==> final(self)@ == old(self)@,
            old(self)@.has_span(id) ==> final(self)@.spans == old(self)@.spans.update(
                old(self)@.span_index(id),
                final(self)@.spans[old(self)@.span_index(id)],
            ) && final(self)@.traces == old(self)@.traces && span_failed_from(
                old(self)@.span_at(id),
                final(self)@.spans[old(self)@.span_index(id)],
                error@,
            ) && final(self)@.span_at(id) == final(self)@.spans[old(self)@.span_index(id)],
            forall|t2: TraceId|
                (#[trigger] final(self)@.trace_spans(t2)) == old(self)@.trace_spans(t2)
                    && (final(self)@.has_trace(t2) <==> old(self)@.has_trace(t2)),
    {
        let ghost m0 = self@;
        match self.find_span_index(id) {
            None => false,
            Some(i) => {
                proof {
                    lemma_span_index_is(m0, i as int);
                }
                let mut s = self.spans.remove(i);
                s.fail(error);
                let ghost s2 = s;
                self.spans.insert(i, s);
                proof {
                    assert(self@.spans =~= m0.spans.update(i as int, s2));
                    assert(self@.traces == m0.traces);
                    lemma_update_span_wf(m0, i as int, s2);
                    assert(self@ =~= StoreModel { spans: m0.spans.update(i as int, s2), traces: m0.traces });
                    lemma_span_index_is(self@, i as int);
                    lemma_same_traces(m0, self@);
                }
                true
            },
        }
    }

    /// Copies of every span matching all set criteria of the filter, in
    /// insertion order.
    pub fn filter_spans(&self, filter: &SpanFilter) -> (r: Vec<Span>)
        ensures
            r@ == filtered_spans(self@.spans, *filter),
    {
        let mut out: Vec<Span> = Vec::new();
        let mut i: usize = 0;
        while i < self.spans.len()
            invariant
                i <= self@.spans.len(),
                out@ == filtered_spans(self@.spans.take(i as int), *filter),
            decreases self@.spans.len() - i,
        {
            proof {
                assert(self@.spans.take(i + 1).drop_last() =~= self@.spans.take(i as int));
                assert(self@.spans.take(i + 1).last() == self@.spans[i as int]);
            }
            if filter.matches(&self.spans[i]) {
                out.push(self.spans[i].duplicate());
            }
            proof {
                assert(out@ =~= filtered_spans(self@.spans.take(i + 1), *filter));
            }
            i = i + 1;
        }
        proof {
            assert(self@.spans.take(self@.spans.len() as int) =~= self@.spans);
        }
        out
    }

    /// Empties both indexes unconditionally.
    pub fn clear(&mut self)
        ensures
            final(self)@ == StoreModel::empty(),
            final(self)@.wf(),
    {
        self.spans.clear();
        self.traces.clear();
        proof {
            assert(self@.spans =~= Seq::<Span>::empty());
            assert(self@.traces =~= Seq::<(TraceId, Seq<SpanId>)>::empty());
            assert(self@ =~= StoreModel::empty());
        }
    }
}

} // verus!
