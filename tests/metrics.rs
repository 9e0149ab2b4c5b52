use actix_web_metrics::recorder::{duration_nanos, record_completion};
use actix_web_metrics::render::render_snapshot;
use actix_web_metrics::text::{i64_text, list_of_u64_text, str_eq, u64_text};
use actix_web_metrics::{
    Dispatch, ExportSchedule, Label, Measurement, MetricError, MetricKey, MetricStore, Metrics,
    MetricsResponse, StreamEvent, StreamLog,
};
use std::collections::BTreeMap;

fn key(name: &str, labels: &[(&str, &str)]) -> MetricKey {
    MetricKey {
        name: name.to_string(),
        labels: labels
            .iter()
            .map(|(n, v)| Label { name: n.to_string(), value: v.to_string() })
            .collect(),
    }
}

fn complete(metrics: &mut Metrics, path: &str, method: &str, status: u16, nanos: u64) {
    match metrics.on_response(path, method, Dispatch::Ready(status)) {
        Ok(MetricsResponse::Streaming(mut log)) => {
            let event = log.step(StreamEvent::End, Some(nanos)).expect("completion");
            assert!(log.step(StreamEvent::Dropped, Some(nanos)).is_none());
            metrics.update_metrics(&event.path, &event.method, event.status, event.duration_nanos);
        }
        _ => panic!("expected a tracked body"),
    }
}

fn snapshot_body(metrics: &Metrics) -> (u16, String) {
    match metrics.on_response(&metrics.path.clone(), "GET", Dispatch::Ready(404)) {
        Ok(MetricsResponse::Snapshot { status, body }) => (status, body),
        _ => panic!("expected the snapshot"),
    }
}

#[test]
fn middleware_basic() {
    let mut metrics = Metrics::new("/metrics", "actix_web_mw_test");
    let mut log = match metrics.on_response("/health_check", "GET", Dispatch::Ready(200)) {
        Ok(MetricsResponse::Streaming(log)) => log,
        _ => panic!("expected a tracked body"),
    };
    assert!(log.status >= 200 && log.status < 300);
    assert_eq!(log.size, 0);
    let event = log.step(StreamEvent::Dropped, Some(0)).unwrap();
    metrics.update_metrics(&event.path, &event.method, event.status, event.duration_nanos);
    let (status, body) = snapshot_body(&metrics);
    assert_eq!(status, 200);
    assert_eq!(
        &body,
        &String::from_utf8(
            br#"{"http_requests_duration":"[0]","http_requests_total":"1"}"#.to_vec()
        )
        .unwrap()
    );
}

#[test]
fn health_check_then_metrics_scenario() {
    let mut metrics = Metrics::new("/metrics", "ns");
    complete(&mut metrics, "/health_check", "GET", 200, 0);
    let (status, body) = snapshot_body(&metrics);
    assert_eq!(status, 200);
    assert_eq!(body, r#"{"http_requests_duration":"[0]","http_requests_total":"1"}"#);
}

#[test]
fn counter_counts_each_completed_request() {
    let mut store = MetricStore::new();
    for i in 0..5u64 {
        record_completion(&mut store, "/a", "GET", 200, Some(i)).unwrap();
        record_completion(&mut store, "/b", "GET", 200, Some(i)).unwrap();
        record_completion(&mut store, "/a", "GET", 500, Some(i)).unwrap();
    }
    let snap = store.snapshot();
    assert_eq!(snap.len(), 6);
    let mut found = false;
    for i in 0..snap.len() {
        if snap.name(i) == "http_requests_total" {
            match snap.measurement(i) {
                Measurement::Counter(c) => assert_eq!(*c, 5),
                _ => panic!("counter expected"),
            }
            found = true;
        }
    }
    assert!(found);
}

#[test]
fn one_completion_when_client_aborts() {
    let mut log = StreamLog::new("/a", "GET", 200);
    assert!(log.step(StreamEvent::Chunk(10), Some(1)).is_none());
    assert!(log.step(StreamEvent::Chunk(5), Some(2)).is_none());
    assert_eq!(log.size, 15);
    let e = log.step(StreamEvent::Dropped, Some(3)).unwrap();
    assert_eq!((e.path.as_str(), e.method.as_str(), e.status, e.duration_nanos), ("/a", "GET", 200, Some(3)));
    assert!(log.step(StreamEvent::Dropped, Some(4)).is_none());
}

#[test]
fn one_completion_when_stream_ends_then_drops() {
    let mut log = StreamLog::new("/a", "GET", 201);
    assert!(log.step(StreamEvent::End, Some(7)).is_some());
    assert!(log.step(StreamEvent::Dropped, Some(8)).is_none());
    assert!(log.finished);
}

#[test]
fn body_error_keeps_status() {
    let mut log = StreamLog::new("/a", "GET", 200);
    let e = log.step(StreamEvent::Failed, Some(1)).unwrap();
    assert_eq!(e.status, 200);
    assert!(log.step(StreamEvent::Dropped, Some(2)).is_none());
}

#[test]
fn chunk_tally_saturates() {
    let mut log = StreamLog::new("/a", "GET", 200);
    log.step(StreamEvent::Chunk(usize::MAX), Some(0));
    log.step(StreamEvent::Chunk(3), Some(0));
    assert_eq!(log.size, usize::MAX);
}

#[test]
fn failed_dispatch_records_nothing() {
    let metrics = Metrics::new("/metrics", "ns");
    assert!(matches!(
        metrics.on_response("/a", "GET", Dispatch::Failed),
        Ok(MetricsResponse::Failed)
    ));
    assert!(matches!(
        metrics.on_response("/metrics", "GET", Dispatch::Failed),
        Ok(MetricsResponse::Failed)
    ));
    assert_eq!(metrics.metrics().unwrap(), "{}");
}

#[test]
fn metrics_route_overrides_inner_status() {
    let mut metrics = Metrics::new("/stats", "ns");
    complete(&mut metrics, "/x", "POST", 404, 9);
    match metrics.on_response("/stats", "GET", Dispatch::Ready(500)) {
        Ok(MetricsResponse::Snapshot { status, body }) => {
            assert_eq!(status, 200);
            assert_eq!(body, r#"{"http_requests_duration":"[9]","http_requests_total":"1"}"#);
        }
        _ => panic!("expected the snapshot"),
    }
    assert!(metrics.matches("/stats", "GET"));
    assert!(!metrics.matches("/stats", "POST"));
    assert!(!metrics.matches("/stat", "GET"));
    assert!(matches!(
        metrics.on_response("/stats", "POST", Dispatch::Ready(405)),
        Ok(MetricsResponse::Streaming(_))
    ));
}

#[test]
fn rendered_snapshot_parses_back() {
    let mut store = MetricStore::new();
    store.counter_add(key("requests", &[("a", "1")]), 2).unwrap();
    store.gauge_set(key("load", &[]), -5).unwrap();
    store.histogram_observe(key("latency", &[]), 5).unwrap();
    store.histogram_observe(key("latency", &[]), 7).unwrap();
    let text = render_snapshot(&store.snapshot()).unwrap();
    assert_eq!(text, r#"{"latency":"[5, 7]","load":"-5","requests":"2"}"#);
    let parsed: BTreeMap<String, String> = serde_json::from_str(&text).unwrap();
    assert_eq!(parsed.len(), 3);
    assert_eq!(parsed["requests"].parse::<u64>().unwrap(), 2);
    assert_eq!(parsed["load"].parse::<i64>().unwrap(), -5);
    let points: Vec<u64> = parsed["latency"]
        .trim_matches(|c| c == '[' || c == ']')
        .split(", ")
        .map(|p| p.parse().unwrap())
        .collect();
    assert_eq!(points, vec![5, 7]);
}

#[test]
fn snapshots_back_to_back_render_alike() {
    let mut metrics = Metrics::new("/metrics", "ns");
    complete(&mut metrics, "/a", "GET", 200, 11);
    complete(&mut metrics, "/b", "GET", 200, 12);
    assert_eq!(metrics.metrics().unwrap(), metrics.metrics().unwrap());
}

#[test]
fn later_entry_of_a_name_stands() {
    let mut metrics = Metrics::new("/metrics", "ns");
    complete(&mut metrics, "/a", "GET", 200, 11);
    complete(&mut metrics, "/b", "GET", 200, 12);
    complete(&mut metrics, "/a", "GET", 200, 13);
    assert_eq!(
        metrics.metrics().unwrap(),
        r#"{"http_requests_duration":"[12]","http_requests_total":"1"}"#
    );
}

#[test]
fn exporter_pushes_every_interval() {
    let mut schedule = ExportSchedule::new(5000);
    let mut pushes = 0;
    for now in (0..=10_000u64).step_by(1000) {
        if schedule.poll(now) {
            pushes += 1;
            assert_eq!(schedule.last_push, Some(now));
        }
    }
    assert_eq!(pushes, 3);
    assert_eq!(schedule.wait(10_500), 4500);
    assert_eq!(schedule.wait(20_000), 0);
    assert_eq!(ExportSchedule::new(5).wait(3), 0);
}

#[test]
fn kind_mismatch_is_an_error() {
    let mut store = MetricStore::new();
    store.counter_add(key("m", &[]), 1).unwrap();
    assert_eq!(store.histogram_observe(key("m", &[]), 1), Err(MetricError::KindMismatch));
    assert_eq!(store.gauge_set(key("m", &[]), 1), Err(MetricError::KindMismatch));
    store.gauge_set(key("g", &[]), 3).unwrap();
    assert_eq!(store.counter_add(key("g", &[]), 1), Err(MetricError::KindMismatch));
    assert_eq!(store.snapshot().len(), 2);
}

#[test]
fn label_order_does_not_split_keys() {
    let mut store = MetricStore::new();
    store.counter_add(key("c", &[("x", "1"), ("y", "2")]), 1).unwrap();
    store.counter_add(key("c", &[("y", "2"), ("x", "1")]), 4).unwrap();
    store.counter_add(key("c", &[("y", "3"), ("x", "1")]), 1).unwrap();
    let snap = store.snapshot();
    assert_eq!(snap.len(), 2);
    assert!(matches!(snap.measurement(0), Measurement::Counter(5)));
    assert!(key("c", &[("x", "1")]).same_as(&key("c", &[("x", "1"), ("x", "1")])));
    assert!(!key("c", &[("x", "1")]).same_as(&key("d", &[("x", "1")])));
}

#[test]
fn counter_saturates_and_gauge_overwrites() {
    let mut store = MetricStore::new();
    store.counter_add(key("c", &[]), u64::MAX - 1).unwrap();
    store.counter_add(key("c", &[]), 5).unwrap();
    store.gauge_set(key("g", &[]), 1).unwrap();
    store.gauge_set(key("g", &[]), -9).unwrap();
    let snap = store.snapshot();
    assert!(matches!(snap.measurement(0), Measurement::Counter(u64::MAX)));
    assert!(matches!(snap.measurement(1), Measurement::Gauge(-9)));
    assert_eq!(Metrics::print_measure(snap.measurement(0)), "18446744073709551615");
}

#[test]
fn texts_of_numbers() {
    assert_eq!(u64_text(0), "0");
    assert_eq!(u64_text(1234567890), "1234567890");
    assert_eq!(i64_text(-42), "-42");
    assert_eq!(i64_text(i64::MIN), "-9223372036854775808");
    assert_eq!(i64_text(i64::MAX), "9223372036854775807");
    assert_eq!(list_of_u64_text(&vec![]), "[]");
    assert_eq!(list_of_u64_text(&vec![3]), "[3]");
    assert_eq!(list_of_u64_text(&vec![1, 20, 300]), "[1, 20, 300]");
    assert!(str_eq("abc", "abc"));
    assert!(!str_eq("abc", "abd"));
    assert!(!str_eq("abc", "ab"));
}

#[test]
fn durations_in_nanoseconds() {
    assert_eq!(duration_nanos(0, 0), 0);
    assert_eq!(duration_nanos(2, 500), 2_000_000_500);
    assert_eq!(duration_nanos(u64::MAX, 0), u64::MAX);
}

#[test]
fn histogram_keeps_observations_in_order() {
    let mut store = MetricStore::new();
    for v in [4u64, 1, 9] {
        store.histogram_observe(key("h", &[("p", "/")]), v).unwrap();
    }
    let snap = store.snapshot();
    assert_eq!(Metrics::print_measure(snap.measurement(0)), "[4, 1, 9]");
}

#[test]
fn kind_clash_leaves_store_as_it_was() {
    let mut store = MetricStore::new();
    let labels = [("path", "/a"), ("method", "GET"), ("status", "200")];
    store.gauge_set(key("http_requests_total", &labels), 7).unwrap();
    assert_eq!(record_completion(&mut store, "/a", "GET", 200, Some(5)), Err(MetricError::KindMismatch));
    let snap = store.snapshot();
    assert_eq!(snap.len(), 1);
    assert!(matches!(snap.measurement(0), Measurement::Gauge(7)));
    let mut metrics = Metrics::new("/metrics", "ns");
    metrics.store.counter_add(key("http_requests_duration", &labels), 1).unwrap();
    assert!(!metrics.admits_completion("/a", "GET", 200));
    assert!(metrics.admits_completion("/a", "GET", 404));
    assert_eq!(metrics.metrics().unwrap(), r#"{"http_requests_duration":"1"}"#);
}

#[test]
fn unknown_duration_counts_without_observing() {
    let mut metrics = Metrics::new("/metrics", "ns");
    assert_eq!(metrics.schedule.interval, 5000);
    assert_eq!(metrics.schedule.last_push, None);
    metrics.update_metrics("/a", "GET", 200, None);
    assert_eq!(metrics.metrics().unwrap(), r#"{"http_requests_total":"1"}"#);
    metrics.update_metrics("/a", "GET", 200, Some(4));
    assert_eq!(
        metrics.metrics().unwrap(),
        r#"{"http_requests_duration":"[4]","http_requests_total":"2"}"#
    );
}
