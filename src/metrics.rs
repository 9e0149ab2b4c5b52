use vstd::prelude::*;
use crate::store::{Measurement, MetricError, MetricStore, Snapshot, StoreView};
use crate::recorder::{record_completion, record_spec, observe_spec, completion_admitted, duration_key, total_key};
use crate::store::{Kind, lemma_position_absent, histogram_observe_spec, counter_add_spec};
use crate::text::{decimal_text, list_text};
use crate::render::{flat_map, json_object_text, measure_text, measure_text_of, render_snapshot};
use crate::text::str_eq;
use crate::exporter::ExportSchedule;

verus! {

/// What happens to a response body: a chunk of some length passes, the body ends,
/// the body fails, or the body is dropped.
#[derive(PartialEq, Eq, Structural, Clone, Copy, Debug)]
pub enum StreamEvent {
    Chunk(usize),
    End,
    Failed,
    Dropped,
}

/// Whether no further chunk will be pulled after this event.
pub open spec fn is_last(e: StreamEvent) -> bool {
    !(e is Chunk)
}

/// How many completions a body emits over a run of events, given whether it had
/// already finished.
pub open spec fn completions_over(finished: bool, events: Seq<StreamEvent>) -> nat
    decreases events.len(),
{
    if events.len() == 0 {
        0
    } else {
        (if is_last(events[0]) && !finished { 1nat } else { 0nat }) + completions_over(
            finished || is_last(events[0]),
            events.drop_first(),
        )
    }
}

/// A finished body emits no further completion.
pub proof fn lemma_finished_emits_none(events: Seq<StreamEvent>)
    ensures
        completions_over(true, events) == 0,
    decreases events.len(),
{
    if events.len() > 0 {
        lemma_finished_emits_none(events.drop_first());
    }
}

/// A body that is tracked from its start emits exactly one completion over any run
/// of events that ends in its drop, whether it ended, failed or was cut short before.
pub proof fn lemma_exactly_one_completion(events: Seq<StreamEvent>)
    requires
        events.len() > 0,
        events.last() == StreamEvent::Dropped,
    ensures
        completions_over(false, events) == 1,
    decreases events.len(),
{
    if is_last(events[0]) {
        lemma_finished_emits_none(events.drop_first());
    } else {
        let rest = events.drop_first();
        assert(rest.last() == events.last());
        lemma_exactly_one_completion(rest);
    }
}

/// A completed request, as handed to the recorder.
pub struct CompletionEvent {
    pub path: String,
    pub method: String,
    pub status: u16,
    pub duration_nanos: Option<u64>,
}

/// What a tracked response body knows of its request: the path, method and status,
/// the bytes that have passed, and whether its completion was emitted.
pub struct StreamLog {
    pub path: String,
    pub method: String,
    pub status: u16,
    pub size: usize,
    pub finished: bool,
}

impl StreamLog {
    /// A body for a request with this path, method and status, before its first chunk.
    pub fn new(path: &str, method: &str, status: u16) -> (r: StreamLog)
        ensures
            r.path@ == path@,
            r.method@ == method@,
            r.status == status,
            r.size == 0,
            !r.finished,
    {
        StreamLog { path: path.to_owned(), method: method.to_owned(), status, size: 0, finished: false }
    }

    /// Takes one event of the body. A chunk is counted in `size` (held at the largest
    /// `usize`); the first event after which no chunk follows emits the completion,
    /// with the status fixed when the headers were produced and the elapsed time, when
    /// the clock could tell it.
    pub fn step(&mut self, event: StreamEvent, elapsed_nanos: Option<u64>) -> (r: Option<CompletionEvent>)
        ensures
            final(self).path == old(self).path,
            final(self).method == old(self).method,
            final(self).status == old(self).status,
            final(self).finished == (old(self).finished || is_last(event)),
            final(self).size == match event {
                StreamEvent::Chunk(n) => if old(self).size + n > usize::MAX {
                    usize::MAX as int
                } else {
                    old(self).size + n
                },
                _ => old(self).size as int,
            },
            r is Some == (is_last(event) && !old(self).finished),
            r matches Some(c) ==> c.path@ == old(self).path@ && c.method@ == old(self).method@
                && c.status == old(self).status && c.duration_nanos == elapsed_nanos,
    {
        match event {
            StreamEvent::Chunk(n) => {
                self.size = if self.size > usize::MAX - n { usize::MAX } else { self.size + n };
                None
            },
            _ => {
                if self.finished {
                    None
                } else {
                    self.finished = true;
                    Some(CompletionEvent {
                        path: self.path.clone(),
                        method: self.method.clone(),
                        status: self.status,
                        duration_nanos: elapsed_nanos,
                    })
                }
            },
        }
    }
}

/// How the inner service answered: it failed before producing a response, or produced
/// one with this status.
#[derive(PartialEq, Eq, Structural, Clone, Copy, Debug)]
pub enum Dispatch {
    Failed,
    Ready(u16),
}

/// What the middleware does with a response: pass the failure on, serve the snapshot
/// with this status and body, or track the body.
pub enum MetricsResponse {
    Failed,
    Snapshot { status: u16, body: String },
    Streaming(StreamLog),
}

/// The instrumentation: the metrics endpoint's path, the namespace of its metrics, the
/// store they are recorded in, and the schedule of the periodic export.
pub struct Metrics {
    pub namespace: String,
    pub path: String,
    pub store: MetricStore,
    pub schedule: ExportSchedule,
}

impl Metrics {
    /// The entries of the store.
    pub open spec fn store_view(&self) -> StoreView {
        self.store@
    }

    pub open spec fn wf(&self) -> bool {
        self.store.wf()
    }

    /// Instrumentation that serves its snapshot at `path`, with an empty store and an
    /// export every five seconds (5000 ms), none made yet.
    pub fn new(path: &str, namespace: &str) -> (r: Metrics)
        ensures
            r.wf(),
            r.path@ == path@,
            r.namespace@ == namespace@,
            r.schedule.interval == 5000,
            r.schedule.last_push is None,
            r.store_view() == Seq::<((Seq<char>, Set<(Seq<char>, Seq<char>)>), crate::store::MeasureView)>::empty(),
    {
        Metrics {
            namespace: namespace.to_owned(),
            path: path.to_owned(),
            store: MetricStore::new(),
            schedule: ExportSchedule::new(5000),
        }
    }

    /// Whether a completed request with this path, method and status can be recorded:
    /// neither of its two keys holds an accumulator of another kind.
    pub fn admits_completion(&self, path: &str, method: &str, status: u16) -> (r: bool)
        requires
            self.wf(),
        ensures
            r == completion_admitted(self.store_view(), path@, method@, status),
    {
        let st = crate::text::u64_text(status as u64);
        let hk = crate::recorder::completion_key("http_requests_duration", path, method, &st);
        let ck = crate::recorder::completion_key("http_requests_total", path, method, &st);
        self.store.admits(&hk, Kind::Histogram) && self.store.admits(&ck, Kind::Counter)
    }

    /// Records a completed request: the request counter goes up by one and, when the
    /// duration is known, the duration histogram observes it. A key that holds another
    /// kind is a programming error, left out here.
    pub fn update_metrics(&mut self, path: &str, method: &str, status: u16, duration_nanos: Option<u64>)
        requires
            old(self).wf(),
            completion_admitted(old(self).store_view(), path@, method@, status),
        ensures
            final(self).wf(),
            final(self).path == old(self).path,
            final(self).namespace == old(self).namespace,
            final(self).schedule == old(self).schedule,
            record_spec(old(self).store_view(), path@, method@, status, duration_nanos) is Some,
            final(self).store_view() == record_spec(
                old(self).store_view(),
                path@,
                method@,
                status,
                duration_nanos,
            )->Some_0,
    {
        let _ = record_completion(&mut self.store, path, method, status, duration_nanos);
    }

    /// A copy of every entry of the store.
    pub fn snapshot(&self) -> (r: Snapshot)
        ensures
            r@ == self.store_view(),
    {
        self.store.snapshot()
    }

    /// The store's current snapshot as a JSON object from metric name to the text of
    /// its accumulator.
    pub fn metrics(&self) -> (r: Result<String, MetricError>)
        ensures
            r is Ok,
            r matches Ok(t) ==> t@ == json_object_text(flat_map(self.store_view())),
            self.store_view().len() == 0 ==> r->Ok_0@ == seq!['{', '}'],
    {
        let snapshot = self.store.snapshot();
        render_snapshot(&snapshot)
    }

    /// The text of an accumulator's state.
    pub fn print_measure(v: &Measurement) -> (r: String)
        ensures
            r@ == measure_text(v@),
    {
        measure_text_of(v)
    }

    /// Whether a request is one for the metrics endpoint: a GET to its path.
    pub fn matches(&self, path: &str, method: &str) -> (r: bool)
        ensures
            r == (self.path@ == path@ && method@ == "GET"@),
    {
        str_eq(self.path.as_str(), path) && str_eq(method, "GET")
    }

    /// Decides what becomes of a response once the inner service has answered. A failed
    /// dispatch is passed on and nothing is tracked; a GET to the metrics endpoint is
    /// answered with status 200 and the snapshot, whatever the inner service returned;
    /// any other response keeps its status and its body is tracked.
    pub fn on_response(&self, path: &str, method: &str, dispatch: Dispatch) -> (r: Result<
        MetricsResponse,
        MetricError,
    >)
        ensures
            dispatch == Dispatch::Failed ==> r matches Ok(MetricsResponse::Failed),
            dispatch matches Dispatch::Ready(status) ==> {
                if self.path@ == path@ && method@ == "GET"@ {
                    r matches Ok(MetricsResponse::Snapshot { status: st, body }) && st == 200
                        && body@ == json_object_text(flat_map(self.store_view()))
                } else {
                    r matches Ok(MetricsResponse::Streaming(log)) && log.path@ == path@
                        && log.method@ == method@ && log.status == status && log.size == 0
                        && !log.finished
                }
            },
    {
        match dispatch {
            Dispatch::Failed => Ok(MetricsResponse::Failed),
            Dispatch::Ready(status) => {
                if self.matches(path, method) {
                    match self.metrics() {
                        Ok(body) => Ok(MetricsResponse::Snapshot { status: 200, body }),
                        Err(e) => Err(e),
                    }
                } else {
                    Ok(MetricsResponse::Streaming(StreamLog::new(path, method, status)))
                }
            },
        }
    }
}

/// Two calls of `Metrics::metrics` with no write to the store between them return the
/// same text: both return the JSON object of the same entries.
pub proof fn lemma_metrics_idempotent(first: &Metrics, second: &Metrics)
    requires
        first.store_view() == second.store_view(),
    ensures
        json_object_text(flat_map(first.store_view())) == json_object_text(
            flat_map(second.store_view()),
        ),
{
}

/// After one completed request on an empty store, the map that `Metrics::metrics`
/// renders holds exactly two names: the duration histogram with the one observation,
/// and the request counter at one.
pub proof fn lemma_one_request_document(path: Seq<char>, method: Seq<char>, status: u16, duration: u64)
    ensures
        record_spec(Seq::empty(), path, method, status, Some(duration)) is Some,
        flat_map(record_spec(Seq::empty(), path, method, status, Some(duration))->Some_0) == map![
            "http_requests_duration"@ => list_text(seq![duration]),
            "http_requests_total"@ => decimal_text(1),
        ],
{
    reveal_strlit("http_requests_total");
    reveal_strlit("http_requests_duration");
    let e = Seq::<((Seq<char>, Set<(Seq<char>, Seq<char>)>), crate::store::MeasureView)>::empty();
    let hk = duration_key(path, method, status);
    let ck = total_key(path, method, status);
    lemma_position_absent(e, hk);
    let s1 = e.push((hk, (Kind::Histogram, 0int, seq![duration])));
    assert(hk.0.len() != ck.0.len());
    lemma_position_absent(s1, ck);
    let s2 = s1.push((ck, (Kind::Counter, 1int, Seq::<u64>::empty())));
    assert(observe_spec(e, path, method, status, Some(duration)) == Some(s1));
    assert(counter_add_spec(s1, ck, 1) == Some(s2));
    assert(s2.drop_last() == s1);
    assert(s1.drop_last() =~= e);
    assert(flat_map(e) == Map::<Seq<char>, Seq<char>>::empty());
    assert(flat_map(s1) == flat_map(e).insert(hk.0, measure_text(s1.last().1)));
    assert(measure_text(s1.last().1) == list_text(seq![duration]));
    assert(flat_map(s2) == flat_map(s1).insert(ck.0, measure_text(s2.last().1)));
    assert(measure_text(s2.last().1) == decimal_text(1));
    assert(flat_map(s2) =~= map![
        "http_requests_duration"@ => list_text(seq![duration]),
        "http_requests_total"@ => decimal_text(1),
    ]);
}

} // verus!
