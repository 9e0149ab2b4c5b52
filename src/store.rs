use vstd::prelude::*;

verus! {

/// A label: a name and a value, both text.
pub struct Label {
    pub name: String,
    pub value: String,
}

impl View for Label {
    type V = (Seq<char>, Seq<char>);

    open spec fn view(&self) -> (Seq<char>, Seq<char>) {
        (self.name@, self.value@)
    }
}

/// The set of (name, value) pairs that a list of labels holds; order and repeats do not count.
pub open spec fn label_set(labels: Seq<Label>) -> Set<(Seq<char>, Seq<char>)> {
    Set::new(|p: (Seq<char>, Seq<char>)| exists|i: int| 0 <= i < labels.len() && labels[i]@ == p)
}

/// What identifies one accumulator: a metric name and a set of labels.
pub struct MetricKey {
    pub name: String,
    pub labels: Vec<Label>,
}

impl View for MetricKey {
    type V = (Seq<char>, Set<(Seq<char>, Seq<char>)>);

    open spec fn view(&self) -> (Seq<char>, Set<(Seq<char>, Seq<char>)>) {
        (self.name@, label_set(self.labels@))
    }
}

/// The kind of an accumulator.
#[derive(PartialEq, Eq, Structural, Clone, Copy, Debug)]
pub enum Kind {
    Counter,
    Gauge,
    Histogram,
}

/// What a metric operation can fail with.
#[derive(PartialEq, Eq, Structural, Clone, Copy, Debug)]
pub enum MetricError {
    /// The key already holds an accumulator of another kind.
    KindMismatch,
    /// The snapshot could not be written as a JSON object.
    Serialization,
}

/// The state of one accumulator: a counter's total, a gauge's last value, or the
/// values that a histogram has observed, in the order observed.
pub enum Measurement {
    Counter(u64),
    Gauge(i64),
    Histogram(Vec<u64>),
}

/// An accumulator as a kind, a number (a counter's total or a gauge's value) and the
/// observed values of a histogram.
pub type MeasureView = (Kind, int, Seq<u64>);

impl View for Measurement {
    type V = MeasureView;

    open spec fn view(&self) -> MeasureView {
        match self {
            Measurement::Counter(c) => (Kind::Counter, *c as int, Seq::empty()),
            Measurement::Gauge(g) => (Kind::Gauge, *g as int, Seq::empty()),
            Measurement::Histogram(h) => (Kind::Histogram, 0, h@),
        }
    }
}

pub type KeyView = (Seq<char>, Set<(Seq<char>, Seq<char>)>);

pub type StoreView = Seq<(KeyView, MeasureView)>;

/// No two entries share a key.
pub open spec fn keys_distinct(s: StoreView) -> bool {
    forall|i: int, j: int| 0 <= i < s.len() && 0 <= j < s.len() && i != j ==> s[i].0 != s[j].0
}

/// Where the key stands among the entries, or -1.
pub open spec fn position(s: StoreView, k: KeyView) -> int {
    if exists|i: int| 0 <= i < s.len() && s[i].0 == k {
        choose|i: int| 0 <= i < s.len() && s[i].0 == k
    } else {
        -1
    }
}

pub proof fn lemma_position_at(s: StoreView, k: KeyView, i: int)
    requires
        keys_distinct(s),
        0 <= i < s.len(),
        s[i].0 == k,
    ensures
        position(s, k) == i,
{
}

pub proof fn lemma_position_absent(s: StoreView, k: KeyView)
    requires
        forall|i: int| 0 <= i < s.len() ==> s[i].0 != k,
    ensures
        position(s, k) == -1,
{
}

pub proof fn lemma_position_range(s: StoreView, k: KeyView)
    ensures
        -1 <= position(s, k) < s.len(),
        position(s, k) >= 0 ==> s[position(s, k)].0 == k,
        position(s, k) == -1 ==> forall|i: int| 0 <= i < s.len() ==> s[i].0 != k,
{
}

/// Whether an operation of kind `kind` on key `k` succeeds: the key is absent or holds
/// that kind.
pub open spec fn admits_kind(s: StoreView, k: KeyView, kind: Kind) -> bool {
    position(s, k) < 0 || s[position(s, k)].1.0 == kind
}

/// The entries after one operation on key `k`: a new entry `fresh` when the key is
/// absent; the entry rewritten by `next` when it holds kind `kind`; None when it holds
/// another kind.
pub open spec fn apply_op(
    s: StoreView,
    k: KeyView,
    kind: Kind,
    fresh: MeasureView,
    next: spec_fn(MeasureView) -> MeasureView,
) -> Option<StoreView> {
    let p = position(s, k);
    if p < 0 {
        Some(s.push((k, fresh)))
    } else if s[p].1.0 == kind {
        Some(s.update(p, (s[p].0, next(s[p].1))))
    } else {
        None
    }
}

/// A counter's total after adding `delta`, held at the largest `u64`.
pub open spec fn counter_sum(c: int, delta: int) -> int {
    if c + delta > u64::MAX { u64::MAX as int } else { c + delta }
}

pub open spec fn counter_add_spec(s: StoreView, k: KeyView, delta: u64) -> Option<StoreView> {
    apply_op(
        s,
        k,
        Kind::Counter,
        (Kind::Counter, delta as int, Seq::empty()),
        |m: MeasureView| (Kind::Counter, counter_sum(m.1, delta as int), m.2),
    )
}

pub open spec fn gauge_set_spec(s: StoreView, k: KeyView, v: i64) -> Option<StoreView> {
    apply_op(
        s,
        k,
        Kind::Gauge,
        (Kind::Gauge, v as int, Seq::empty()),
        |m: MeasureView| (Kind::Gauge, v as int, m.2),
    )
}

pub open spec fn histogram_observe_spec(s: StoreView, k: KeyView, v: u64) -> Option<StoreView> {
    apply_op(
        s,
        k,
        Kind::Histogram,
        (Kind::Histogram, 0, seq![v]),
        |m: MeasureView| (Kind::Histogram, m.1, m.2.push(v)),
    )
}

/// Whether two lists of labels hold the same set of pairs.
pub fn same_labels(a: &Vec<Label>, b: &Vec<Label>) -> (r: bool)
    ensures
        r == (label_set(a@) == label_set(b@)),
{
    let ab = labels_within(a, b);
    let ba = labels_within(b, a);
    if ab && ba {
        assert(label_set(a@) =~= label_set(b@));
        true
    } else {
        false
    }
}

fn holds_label(v: &Vec<Label>, l: &Label) -> (r: bool)
    ensures
        r == label_set(v@).contains(l@),
{
    let mut i: usize = 0;
    while i < v.len()
        invariant
            i <= v@.len(),
            forall|j: int| 0 <= j < i ==> v@[j]@ != l@,
        decreases v@.len() - i,
    {
        if v[i].name == l.name && v[i].value == l.value {
            assert(label_set(v@).contains(v@[i as int]@));
            return true;
        }
        i = i + 1;
    }
    false
}

fn labels_within(a: &Vec<Label>, b: &Vec<Label>) -> (r: bool)
    ensures
        r == label_set(a@).subset_of(label_set(b@)),
{
    let mut i: usize = 0;
    while i < a.len()
        invariant
            i <= a@.len(),
            forall|j: int| 0 <= j < i ==> label_set(b@).contains(#[trigger] a@[j]@),
        decreases a@.len() - i,
    {
        if !holds_label(b, &a[i]) {
            assert(label_set(a@).contains(a@[i as int]@));
            return false;
        }
        i = i + 1;
    }
    true
}

impl MetricKey {
    /// Whether two keys have the same name and the same set of labels.
    pub fn same_as(&self, other: &MetricKey) -> (r: bool)
        ensures
            r == (self@ == other@),
    {
        self.name == other.name && same_labels(&self.labels, &other.labels)
    }
}

fn copy_labels(v: &Vec<Label>) -> (r: Vec<Label>)
    ensures
        r@.len() == v@.len(),
        forall|i: int| 0 <= i < v@.len() ==> r@[i]@ == v@[i]@,
{
    let mut out: Vec<Label> = Vec::new();
    let mut i: usize = 0;
    while i < v.len()
        invariant
            i <= v@.len(),
            out@.len() == i,
            forall|j: int| 0 <= j < i ==> out@[j]@ == v@[j]@,
        decreases v@.len() - i,
    {
        out.push(Label { name: v[i].name.clone(), value: v[i].value.clone() });
        i = i + 1;
    }
    out
}

fn copy_values(v: &Vec<u64>) -> (r: Vec<u64>)
    ensures
        r@ == v@,
{
    let mut out: Vec<u64> = Vec::new();
    let mut i: usize = 0;
    while i < v.len()
        invariant
            i <= v@.len(),
            out@ == v@.subrange(0, i as int),
        decreases v@.len() - i,
    {
        out.push(v[i]);
        i = i + 1;
        assert(out@ =~= v@.subrange(0, i as int));
    }
    assert(v@.subrange(0, v@.len() as int) =~= v@);
    out
}

impl MetricKey {
    /// A copy of the key.
    pub fn copy(&self) -> (r: MetricKey)
        ensures
            r@ == self@,
    {
        let labels = copy_labels(&self.labels);
        assert(label_set(labels@) =~= label_set(self.labels@)) by {
            assert forall|p: (Seq<char>, Seq<char>)| label_set(self.labels@).contains(p) implies
                label_set(labels@).contains(p) by {
                let i = choose|i: int| 0 <= i < self.labels@.len() && self.labels@[i]@ == p;
                assert(labels@[i]@ == p);
            }
        }
        MetricKey { name: self.name.clone(), labels }
    }
}

impl Measurement {
    /// A copy of the accumulator state.
    pub fn copy(&self) -> (r: Measurement)
        ensures
            r@ == self@,
    {
        match self {
            Measurement::Counter(c) => Measurement::Counter(*c),
            Measurement::Gauge(g) => Measurement::Gauge(*g),
            Measurement::Histogram(h) => Measurement::Histogram(copy_values(h)),
        }
    }
}

pub open spec fn entries_view(e: Seq<(MetricKey, Measurement)>) -> StoreView {
    e.map_values(|x: (MetricKey, Measurement)| (x.0@, x.1@))
}

/// The metric store: one accumulator per key, in the order the keys first appeared.
pub struct MetricStore {
    entries: Vec<(MetricKey, Measurement)>,
}

impl View for MetricStore {
    type V = StoreView;

    closed spec fn view(&self) -> StoreView {
        entries_view(self.entries@)
    }
}

/// A point-in-time copy of every key of the store with the state of its accumulator.
pub struct Snapshot {
    entries: Vec<(MetricKey, Measurement)>,
}

impl View for Snapshot {
    type V = StoreView;

    closed spec fn view(&self) -> StoreView {
        entries_view(self.entries@)
    }
}

impl Snapshot {
    /// The number of entries.
    pub fn len(&self) -> (r: usize)
        ensures
            r == self@.len(),
    {
        self.entries.len()
    }

    /// The metric name of entry `i`.
    pub fn name(&self, i: usize) -> (r: &String)
        requires
            i < self@.len(),
        ensures
            r@ == self@[i as int].0.0,
    {
        &self.entries[i].0.name
    }

    /// The accumulator state of entry `i`.
    pub fn measurement(&self, i: usize) -> (r: &Measurement)
        requires
            i < self@.len(),
        ensures
            r@ == self@[i as int].1,
    {
        &self.entries[i].1
    }
}

impl MetricStore {
    /// No two entries share a key.
    pub open spec fn wf(&self) -> bool {
        keys_distinct(self@)
    }

    /// An empty store.
    pub fn new() -> (r: MetricStore)
        ensures
            r.wf(),
            r@ == Seq::<(KeyView, MeasureView)>::empty(),
    {
        let r = MetricStore { entries: Vec::new() };
        assert(r@ =~= Seq::<(KeyView, MeasureView)>::empty());
        r
    }

    fn find(&self, key: &MetricKey) -> (r: Option<usize>)
        requires
            self.wf(),
        ensures
            match r {
                Some(i) => i as int == position(self@, key@) && i < self@.len(),
                None => position(self@, key@) == -1,
            },
    {
        let mut i: usize = 0;
        while i < self.entries.len()
            invariant
                i <= self.entries@.len(),
                self.wf(),
                self@.len() == self.entries@.len(),
                forall|j: int| 0 <= j < i ==> self@[j].0 != key@,
            decreases self.entries@.len() - i,
        {
            if self.entries[i].0.same_as(key) {
                proof { lemma_position_at(self@, key@, i as int); }
                return Some(i);
            }
            i = i + 1;
        }
        proof { lemma_position_absent(self@, key@); }
        None
    }

    /// Whether an operation of kind `kind` on `key` would succeed: the key is absent,
    /// or holds an accumulator of that kind.
    pub fn admits(&self, key: &MetricKey, kind: Kind) -> (r: bool)
        requires
            self.wf(),
        ensures
            r == admits_kind(self@, key@, kind),
    {
        match self.find(key) {
            None => true,
            Some(i) => {
                let k = match &self.entries[i].1 {
                    Measurement::Counter(_) => Kind::Counter,
                    Measurement::Gauge(_) => Kind::Gauge,
                    Measurement::Histogram(_) => Kind::Histogram,
                };
                k == kind
            },
        }
    }

    proof fn lemma_push(&self, e: Seq<(MetricKey, Measurement)>, k: KeyView, m: MeasureView)
        requires
            self.wf(),
            position(self@, k) == -1,
            entries_view(e) == self@.push((k, m)),
        ensures
            keys_distinct(entries_view(e)),
    {
        lemma_position_range(self@, k);
    }

    /// Adds `delta` to the counter of `key`, which starts at zero when the key is new.
    pub fn counter_add(&mut self, key: MetricKey, delta: u64) -> (r: Result<(), MetricError>)
        requires
            old(self).wf(),
        ensures
            final(self).wf(),
            match counter_add_spec(old(self)@, key@, delta) {
                Some(s) => r is Ok && final(self)@ == s,
                None => r == Err::<(), MetricError>(MetricError::KindMismatch) && final(self)@ == old(self)@,
            },
    {
        match self.find(&key) {
            None => {
                let ghost kv = key@;
                self.entries.push((key, Measurement::Counter(delta)));
                proof {
                    assert(self@ =~= old(self)@.push((kv, (Kind::Counter, delta as int, Seq::empty()))));
                    old(self).lemma_push(self.entries@, kv, (Kind::Counter, delta as int, Seq::empty()));
                }
                Ok(())
            },
            Some(i) => {
                let (k, m) = self.entries.remove(i);
                match m {
                    Measurement::Counter(c) => {
                        let sum: u64 = if c > u64::MAX - delta { u64::MAX } else { c + delta };
                        self.entries.insert(i, (k, Measurement::Counter(sum)));
                        assert(self.entries@ =~= old(self).entries@.update(i as int, self.entries@[i as int]));
                        assert(self@ =~= old(self)@.update(i as int, (old(self)@[i as int].0,
                            (Kind::Counter, counter_sum(c as int, delta as int), Seq::empty()))));
                        Ok(())
                    },
                    other => {
                        self.entries.insert(i, (k, other));
                        assert(self.entries@ =~= old(self).entries@);
                        Err(MetricError::KindMismatch)
                    },
                }
            },
        }
    }

    /// Sets the gauge of `key` to `v`.
    pub fn gauge_set(&mut self, key: MetricKey, v: i64) -> (r: Result<(), MetricError>)
        requires
            old(self).wf(),
        ensures
            final(self).wf(),
            match gauge_set_spec(old(self)@, key@, v) {
                Some(s) => r is Ok && final(self)@ == s,
                None => r == Err::<(), MetricError>(MetricError::KindMismatch) && final(self)@ == old(self)@,
            },
    {
        match self.find(&key) {
            None => {
                let ghost kv = key@;
                self.entries.push((key, Measurement::Gauge(v)));
                proof {
                    assert(self@ =~= old(self)@.push((kv, (Kind::Gauge, v as int, Seq::empty()))));
                    old(self).lemma_push(self.entries@, kv, (Kind::Gauge, v as int, Seq::empty()));
                }
                Ok(())
            },
            Some(i) => {
                let (k, m) = self.entries.remove(i);
                match m {
                    Measurement::Gauge(_) => {
                        self.entries.insert(i, (k, Measurement::Gauge(v)));
                        assert(self.entries@ =~= old(self).entries@.update(i as int, self.entries@[i as int]));
                        assert(self@ =~= old(self)@.update(i as int, (old(self)@[i as int].0,
                            (Kind::Gauge, v as int, Seq::empty()))));
                        Ok(())
                    },
                    other => {
                        self.entries.insert(i, (k, other));
                        assert(self.entries@ =~= old(self).entries@);
                        Err(MetricError::KindMismatch)
                    },
                }
            },
        }
    }

    /// Adds the value `v` to the histogram of `key`.
    pub fn histogram_observe(&mut self, key: MetricKey, v: u64) -> (r: Result<(), MetricError>)
        requires
            old(self).wf(),
        ensures
            final(self).wf(),
            match histogram_observe_spec(old(self)@, key@, v) {
                Some(s) => r is Ok && final(self)@ == s,
                None => r == Err::<(), MetricError>(MetricError::KindMismatch) && final(self)@ == old(self)@,
            },
    {
        match self.find(&key) {
            None => {
                let ghost kv = key@;
                let mut values: Vec<u64> = Vec::new();
                values.push(v);
                self.entries.push((key, Measurement::Histogram(values)));
                proof {
                    assert(values@ =~= seq![v]);
                    assert(self@ =~= old(self)@.push((kv, (Kind::Histogram, 0, seq![v]))));
                    old(self).lemma_push(self.entries@, kv, (Kind::Histogram, 0, seq![v]));
                }
                Ok(())
            },
            Some(i) => {
                let (k, m) = self.entries.remove(i);
                match m {
                    Measurement::Histogram(values) => {
                        let mut values = values;
                        let ghost before = values@;
                        values.push(v);
                        self.entries.insert(i, (k, Measurement::Histogram(values)));
                        assert(self.entries@ =~= old(self).entries@.update(i as int, self.entries@[i as int]));
                        assert(self@ =~= old(self)@.update(i as int, (old(self)@[i as int].0,
                            (Kind::Histogram, 0, before.push(v)))));
                        Ok(())
                    },
                    other => {
                        self.entries.insert(i, (k, other));
                        assert(self.entries@ =~= old(self).entries@);
                        Err(MetricError::KindMismatch)
                    },
                }
            },
        }
    }

    /// A copy of every entry, in the store's order.
    pub fn snapshot(&self) -> (r: Snapshot)
        ensures
            r@ == self@,
    {
        let mut out: Vec<(MetricKey, Measurement)> = Vec::new();
        let mut i: usize = 0;
        while i < self.entries.len()
            invariant
                i <= self.entries@.len(),
                entries_view(out@) == self@.subrange(0, i as int),
            decreases self.entries@.len() - i,
        {
            let k = self.entries[i].0.copy();
            let m = self.entries[i].1.copy();
            let ghost before = out@;
            out.push((k, m));
            assert(out@ =~= before.push((k, m)));
            assert(entries_view(out@) =~= entries_view(before).push((k@, m@)));
            assert(self@[i as int] == (self.entries@[i as int].0@, self.entries@[i as int].1@));
            i = i + 1;
            assert(entries_view(out@) =~= self@.subrange(0, i as int));
        }
        assert(self@.subrange(0, self@.len() as int) =~= self@);
        Snapshot { entries: out }
    }
}

/// One operation on key `k` keeps the keys distinct, and the entry of key `k` then
/// holds `fresh` (when the key was absent) or `next` of its former state.
pub proof fn lemma_apply_same(
    s: StoreView,
    k: KeyView,
    kind: Kind,
    fresh: MeasureView,
    next: spec_fn(MeasureView) -> MeasureView,
)
    requires
        keys_distinct(s),
        apply_op(s, k, kind, fresh, next) is Some,
    ensures
        ({
            let r = apply_op(s, k, kind, fresh, next)->Some_0;
            let p = position(s, k);
            &&& keys_distinct(r)
            &&& position(r, k) >= 0
            &&& r[position(r, k)].1 == if p < 0 { fresh } else { next(s[p].1) }
        }),
{
    lemma_position_range(s, k);
    let r = apply_op(s, k, kind, fresh, next)->Some_0;
    let p = position(s, k);
    if p < 0 {
        lemma_position_at(r, k, s.len() as int);
    } else {
        lemma_position_at(r, k, p);
    }
}

/// One operation on key `k` leaves the entry of every other key as it was.
pub proof fn lemma_apply_other(
    s: StoreView,
    k: KeyView,
    kind: Kind,
    fresh: MeasureView,
    next: spec_fn(MeasureView) -> MeasureView,
    other: KeyView,
)
    requires
        keys_distinct(s),
        k != other,
        apply_op(s, k, kind, fresh, next) is Some,
    ensures
        ({
            let r = apply_op(s, k, kind, fresh, next)->Some_0;
            let q = position(s, other);
            &&& keys_distinct(r)
            &&& position(r, other) == q
            &&& q >= 0 ==> r[q].1 == s[q].1
        }),
{
    lemma_position_range(s, k);
    lemma_position_range(s, other);
    let r = apply_op(s, k, kind, fresh, next)->Some_0;
    let q = position(s, other);
    if q >= 0 {
        lemma_position_at(r, other, q);
    } else {
        lemma_position_absent(r, other);
    }
}

} // verus!
