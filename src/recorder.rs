use vstd::prelude::*;
use crate::store::{
    Label, MetricKey, MetricStore, MetricError, KeyView, StoreView, position, keys_distinct,
    counter_add_spec, histogram_observe_spec, lemma_apply_same, lemma_apply_other,
    lemma_position_range, counter_sum, Kind, admits_kind,
};
use crate::text::{decimal_text, u64_text};

verus! {

/// The labels of a completed request: its path, its method and its status.
pub open spec fn completion_labels(path: Seq<char>, method: Seq<char>, status: Seq<char>) -> Set<
    (Seq<char>, Seq<char>),
> {
    set![("path"@, path), ("method"@, method), ("status"@, status)]
}

/// The key of the request counter for a path, method and status.
pub open spec fn total_key(path: Seq<char>, method: Seq<char>, status: u16) -> KeyView {
    ("http_requests_total"@, completion_labels(path, method, decimal_text(status as nat)))
}

/// The key of the request duration histogram for a path, method and status.
pub open spec fn duration_key(path: Seq<char>, method: Seq<char>, status: u16) -> KeyView {
    ("http_requests_duration"@, completion_labels(path, method, decimal_text(status as nat)))
}

/// The store after the duration of a completed request is observed; unchanged when the
/// duration is unknown.
pub open spec fn observe_spec(
    s: StoreView,
    path: Seq<char>,
    method: Seq<char>,
    status: u16,
    duration: Option<u64>,
) -> Option<StoreView> {
    match duration {
        Some(d) => histogram_observe_spec(s, duration_key(path, method, status), d),
        None => Some(s),
    }
}

/// The store after one completed request: its duration observed when it is known, then
/// its count raised by one.
pub open spec fn record_spec(
    s: StoreView,
    path: Seq<char>,
    method: Seq<char>,
    status: u16,
    duration: Option<u64>,
) -> Option<StoreView> {
    match observe_spec(s, path, method, status, duration) {
        Some(s1) => counter_add_spec(s1, total_key(path, method, status), 1),
        None => None,
    }
}

/// Whether the store can take a completed request with this path, method and status:
/// its duration key is absent or a histogram, and its count key absent or a counter.
pub open spec fn completion_admitted(s: StoreView, path: Seq<char>, method: Seq<char>, status: u16) -> bool {
    admits_kind(s, duration_key(path, method, status), Kind::Histogram)
        && admits_kind(s, total_key(path, method, status), Kind::Counter)
}

/// A completed request: path, method, status and duration in nanoseconds when known.
pub type Completion = (Seq<char>, Seq<char>, u16, Option<u64>);

/// The store after a run of completed requests, in order; None once one of them fails.
pub open spec fn run_spec(s: StoreView, events: Seq<Completion>) -> Option<StoreView>
    decreases events.len(),
{
    if events.len() == 0 {
        Some(s)
    } else {
        match run_spec(s, events.drop_last()) {
            Some(s1) => {
                let e = events.last();
                record_spec(s1, e.0, e.1, e.2, e.3)
            },
            None => None,
        }
    }
}

/// How many of the requests have this path, method and status.
pub open spec fn count_matching(
    events: Seq<Completion>,
    path: Seq<char>,
    method: Seq<char>,
    status: u16,
) -> nat
    decreases events.len(),
{
    if events.len() == 0 {
        0
    } else {
        let e = events.last();
        count_matching(events.drop_last(), path, method, status) + if e.0 == path && e.1 == method
            && e.2 == status {
            1nat
        } else {
            0nat
        }
    }
}

/// The number that the entry of a key holds, zero when the key is absent.
pub open spec fn value_at(s: StoreView, k: KeyView) -> int {
    let p = position(s, k);
    if p >= 0 { s[p].1.1 } else { 0 }
}

proof fn lemma_decimal_injective(a: nat, b: nat)
    requires
        decimal_text(a) == decimal_text(b),
    ensures
        a == b,
{
    crate::text::lemma_decimal_round_trip(a);
    crate::text::lemma_decimal_round_trip(b);
}

proof fn lemma_labels_injective(p1: Seq<char>, m1: Seq<char>, s1: u16, p2: Seq<char>, m2: Seq<char>, s2: u16)
    requires
        completion_labels(p1, m1, decimal_text(s1 as nat)) == completion_labels(p2, m2, decimal_text(s2 as nat)),
    ensures
        p1 == p2 && m1 == m2 && s1 == s2,
{
    reveal_strlit("path");
    reveal_strlit("method");
    reveal_strlit("status");
    let l1 = completion_labels(p1, m1, decimal_text(s1 as nat));
    assert(l1.contains(("path"@, p1)));
    assert(l1.contains(("method"@, m1)));
    assert(l1.contains(("status"@, decimal_text(s1 as nat))));
    assert("path"@.len() != "method"@.len());
    assert("path"@.len() != "status"@.len());
    assert("method"@[0] != "status"@[0]);
    lemma_decimal_injective(s1 as nat, s2 as nat);
}

/// One completed request raises the counter of its own path, method and status by one
/// and leaves every other counter as it was, while the keys stay distinct.
pub proof fn lemma_record_step(
    s: StoreView,
    e: Completion,
    path: Seq<char>,
    method: Seq<char>,
    status: u16,
)
    requires
        keys_distinct(s),
        record_spec(s, e.0, e.1, e.2, e.3) is Some,
        e.0 == path && e.1 == method && e.2 == status ==> value_at(s, total_key(path, method, status))
            < u64::MAX,
    ensures
        ({
            let r = record_spec(s, e.0, e.1, e.2, e.3)->Some_0;
            let k = total_key(path, method, status);
            &&& keys_distinct(r)
            &&& value_at(r, k) == value_at(s, k) + if e.0 == path && e.1 == method && e.2 == status {
                1int
            } else {
                0int
            }
        }),
{
    reveal_strlit("http_requests_total");
    reveal_strlit("http_requests_duration");
    let k = total_key(path, method, status);
    let hk = duration_key(e.0, e.1, e.2);
    let ck = total_key(e.0, e.1, e.2);
    assert(hk.0.len() != k.0.len());
    let s1 = observe_spec(s, e.0, e.1, e.2, e.3)->Some_0;
    if let Some(d) = e.3 {
        lemma_apply_other(s, hk, Kind::Histogram, (Kind::Histogram, 0, seq![d]),
            |m: (Kind, int, Seq<u64>)| (Kind::Histogram, m.1, m.2.push(d)), k);
    }
    lemma_position_range(s, k);
    lemma_position_range(s1, k);
    let fresh = (Kind::Counter, 1int, Seq::<u64>::empty());
    let next = |m: (Kind, int, Seq<u64>)| (Kind::Counter, counter_sum(m.1, 1), m.2);
    if e.0 == path && e.1 == method && e.2 == status {
        lemma_apply_same(s1, ck, Kind::Counter, fresh, next);
    } else {
        if ck == k {
            lemma_labels_injective(e.0, e.1, e.2, path, method, status);
        }
        lemma_apply_other(s1, ck, Kind::Counter, fresh, next, k);
    }
}

/// For any run of completed requests, in any order and mixed with requests to other
/// routes, the request counter of a path, method and status goes up by exactly the
/// number of those requests that have that path, method and status.
pub proof fn lemma_counter_counts_requests(
    s: StoreView,
    events: Seq<Completion>,
    path: Seq<char>,
    method: Seq<char>,
    status: u16,
)
    requires
        keys_distinct(s),
        run_spec(s, events) is Some,
        value_at(s, total_key(path, method, status)) + count_matching(events, path, method, status)
            <= u64::MAX,
    ensures
        keys_distinct(run_spec(s, events)->Some_0),
        value_at(run_spec(s, events)->Some_0, total_key(path, method, status)) == value_at(
            s,
            total_key(path, method, status),
        ) + count_matching(events, path, method, status),
    decreases events.len(),
{
    if events.len() > 0 {
        let prefix = events.drop_last();
        lemma_counter_counts_requests(s, prefix, path, method, status);
        let s1 = run_spec(s, prefix)->Some_0;
        lemma_record_step(s1, events.last(), path, method, status);
    }
}

/// How many of the requests have this path, method and status and a known duration.
pub open spec fn count_timed(
    events: Seq<Completion>,
    path: Seq<char>,
    method: Seq<char>,
    status: u16,
) -> nat
    decreases events.len(),
{
    if events.len() == 0 {
        0
    } else {
        let e = events.last();
        count_timed(events.drop_last(), path, method, status) + if e.0 == path && e.1 == method
            && e.2 == status && e.3 is Some {
            1nat
        } else {
            0nat
        }
    }
}

/// How many values the entry of a key has observed, zero when the key is absent.
pub open spec fn observed_at(s: StoreView, k: KeyView) -> nat {
    let p = position(s, k);
    if p >= 0 { s[p].1.2.len() } else { 0 }
}

/// One completed request adds one observation to the duration histogram of its own
/// path, method and status when its duration is known, and none to any other.
pub proof fn lemma_observe_step(
    s: StoreView,
    e: Completion,
    path: Seq<char>,
    method: Seq<char>,
    status: u16,
)
    requires
        keys_distinct(s),
        record_spec(s, e.0, e.1, e.2, e.3) is Some,
    ensures
        ({
            let r = record_spec(s, e.0, e.1, e.2, e.3)->Some_0;
            let k = duration_key(path, method, status);
            &&& keys_distinct(r)
            &&& observed_at(r, k) == observed_at(s, k) + if e.0 == path && e.1 == method && e.2
                == status && e.3 is Some {
                1int
            } else {
                0int
            }
        }),
{
    reveal_strlit("http_requests_total");
    reveal_strlit("http_requests_duration");
    let k = duration_key(path, method, status);
    let hk = duration_key(e.0, e.1, e.2);
    let ck = total_key(e.0, e.1, e.2);
    assert(ck.0.len() != k.0.len());
    let s1 = observe_spec(s, e.0, e.1, e.2, e.3)->Some_0;
    lemma_position_range(s, k);
    if let Some(d) = e.3 {
        let fresh = (Kind::Histogram, 0int, seq![d]);
        let next = |m: (Kind, int, Seq<u64>)| (Kind::Histogram, m.1, m.2.push(d));
        if e.0 == path && e.1 == method && e.2 == status {
            lemma_apply_same(s, hk, Kind::Histogram, fresh, next);
        } else {
            if hk == k {
                lemma_labels_injective(e.0, e.1, e.2, path, method, status);
            }
            lemma_apply_other(s, hk, Kind::Histogram, fresh, next, k);
        }
    }
    lemma_position_range(s1, k);
    let cfresh = (Kind::Counter, 1int, Seq::<u64>::empty());
    let cnext = |m: (Kind, int, Seq<u64>)| (Kind::Counter, counter_sum(m.1, 1), m.2);
    lemma_apply_other(s1, ck, Kind::Counter, cfresh, cnext, k);
}

/// For any run of completed requests, in any order and mixed with requests to other
/// routes, the duration histogram of a path, method and status gains exactly one
/// observation for each of those requests whose duration was known.
pub proof fn lemma_histogram_counts_requests(
    s: StoreView,
    events: Seq<Completion>,
    path: Seq<char>,
    method: Seq<char>,
    status: u16,
)
    requires
        keys_distinct(s),
        run_spec(s, events) is Some,
    ensures
        keys_distinct(run_spec(s, events)->Some_0),
        observed_at(run_spec(s, events)->Some_0, duration_key(path, method, status)) == observed_at(
            s,
            duration_key(path, method, status),
        ) + count_timed(events, path, method, status),
    decreases events.len(),
{
    if events.len() > 0 {
        let prefix = events.drop_last();
        lemma_histogram_counts_requests(s, prefix, path, method, status);
        let s1 = run_spec(s, prefix)->Some_0;
        lemma_observe_step(s1, events.last(), path, method, status);
    }
}

pub(crate) fn completion_key(name: &str, path: &str, method: &str, status: &String) -> (r: MetricKey)
    ensures
        r@ == (name@, completion_labels(path@, method@, status@)),
{
    let mut labels: Vec<Label> = Vec::new();
    labels.push(Label { name: "path".to_owned(), value: path.to_owned() });
    labels.push(Label { name: "method".to_owned(), value: method.to_owned() });
    labels.push(Label { name: "status".to_owned(), value: status.clone() });
    let r = MetricKey { name: name.to_owned(), labels };
    assert(crate::store::label_set(r.labels@) =~= completion_labels(path@, method@, status@)) by {
        assert(r.labels@[0]@ == ("path"@, path@));
        assert(r.labels@[1]@ == ("method"@, method@));
        assert(r.labels@[2]@ == ("status"@, status@));
    }
    r
}

/// Records one completed request: its duration in nanoseconds, when known, goes to the
/// `http_requests_duration` histogram and the `http_requests_total` counter goes up by
/// one, both labelled by path, method and status. Where either key holds another kind,
/// nothing changes and the call fails.
pub fn record_completion(
    store: &mut MetricStore,
    path: &str,
    method: &str,
    status: u16,
    duration_nanos: Option<u64>,
) -> (r: Result<(), MetricError>)
    requires
        old(store).wf(),
    ensures
        final(store).wf(),
        record_spec(old(store)@, path@, method@, status, duration_nanos) is Some
            <== completion_admitted(old(store)@, path@, method@, status),
        match record_spec(old(store)@, path@, method@, status, duration_nanos) {
            Some(s) => r is Ok && final(store)@ == s,
            None => r == Err::<(), MetricError>(MetricError::KindMismatch) && final(store)@
                == old(store)@,
        },
{
    let st = u64_text(status as u64);
    let hk = completion_key("http_requests_duration", path, method, &st);
    let ck = completion_key("http_requests_total", path, method, &st);
    let ghost s = store@;
    let ghost hkv = hk@;
    let ghost ckv = ck@;
    proof {
        reveal_strlit("http_requests_total");
        reveal_strlit("http_requests_duration");
        assert(hkv.0.len() != ckv.0.len());
        lemma_position_range(s, hkv);
        lemma_position_range(s, ckv);
    }
    let hist_ok = store.admits(&hk, Kind::Histogram);
    let counter_ok = store.admits(&ck, Kind::Counter);
    proof {
        if duration_nanos is Some && hist_ok {
            let d = duration_nanos->Some_0;
            let fresh = (Kind::Histogram, 0int, seq![d]);
            let next = |m: (Kind, int, Seq<u64>)| (Kind::Histogram, m.1, m.2.push(d));
            lemma_apply_other(s, hkv, Kind::Histogram, fresh, next, ckv);
        }
    }
    match duration_nanos {
        Some(d) => {
            if !hist_ok || !counter_ok {
                return Err(MetricError::KindMismatch);
            }
            match store.histogram_observe(hk, d) {
                Ok(()) => store.counter_add(ck, 1),
                Err(e) => Err(e),
            }
        },
        None => {
            if !counter_ok {
                return Err(MetricError::KindMismatch);
            }
            store.counter_add(ck, 1)
        },
    }
}

/// A duration in whole nanoseconds, from whole seconds and the nanoseconds beyond
/// them; held at the largest `u64` when it does not fit.
pub fn duration_nanos(secs: u64, subsec_nanos: u32) -> (r: u64)
    ensures
        r as int == if secs * 1_000_000_000 + subsec_nanos > u64::MAX {
            u64::MAX as int
        } else {
            secs * 1_000_000_000 + subsec_nanos
        },
{
    if secs > (u64::MAX - subsec_nanos as u64) / 1_000_000_000 {
        assert(secs * 1_000_000_000 + subsec_nanos > u64::MAX) by (nonlinear_arith)
            requires
                secs > (u64::MAX - subsec_nanos as u64) / 1_000_000_000,
        ;
        u64::MAX
    } else {
        assert(secs * 1_000_000_000 + subsec_nanos <= u64::MAX) by (nonlinear_arith)
            requires
                secs <= (u64::MAX - subsec_nanos as u64) / 1_000_000_000,
        ;
        secs * 1_000_000_000 + subsec_nanos as u64
    }
}

} // verus!
