use vstd::prelude::*;
use crate::store::{Kind, MeasureView, Measurement, MetricError, Snapshot, StoreView};
use crate::text::{
    decimal_text, signed_text, list_text, u64_text, i64_text, list_of_u64_text, decimal_value,
    signed_value, list_value, lemma_decimal_round_trip, lemma_signed_round_trip,
    lemma_list_round_trip,
};

verus! {

/// The text of an accumulator's state: a counter's total or a gauge's value in decimal,
/// a histogram's observed values as a list.
pub open spec fn measure_text(m: MeasureView) -> Seq<char> {
    if m.0 == Kind::Counter {
        decimal_text(m.1 as nat)
    } else if m.0 == Kind::Gauge {
        signed_text(m.1)
    } else {
        list_text(m.2)
    }
}

/// Each metric name with the text of its accumulator; where several entries share a
/// name, the later one stands.
pub open spec fn flat_map(s: StoreView) -> Map<Seq<char>, Seq<char>>
    decreases s.len(),
{
    if s.len() == 0 {
        Map::empty()
    } else {
        flat_map(s.drop_last()).insert(s.last().0.0, measure_text(s.last().1))
    }
}

/// Order of texts by their characters, as a dictionary orders words.
pub open spec fn text_less(a: Seq<char>, b: Seq<char>) -> bool
    decreases a.len(),
{
    if a.len() == 0 {
        b.len() > 0
    } else if b.len() == 0 {
        false
    } else if a[0] != b[0] {
        a[0] < b[0]
    } else {
        text_less(a.drop_first(), b.drop_first())
    }
}

/// Of two different texts, one comes before the other.
pub proof fn lemma_text_less_total(a: Seq<char>, b: Seq<char>)
    requires
        a != b,
    ensures
        text_less(a, b) || text_less(b, a),
    decreases a.len(),
{
    if a.len() > 0 && b.len() > 0 && a[0] == b[0] {
        if a.drop_first() == b.drop_first() {
            assert(a =~= seq![a[0]] + a.drop_first());
            assert(b =~= seq![b[0]] + b.drop_first());
        }
        lemma_text_less_total(a.drop_first(), b.drop_first());
    } else if a.len() == 0 && b.len() == 0 {
        assert(a =~= b);
    }
}

/// Pairs of texts whose first parts are distinct and in increasing order.
pub open spec fn sorted_pairs(s: Seq<(Seq<char>, Seq<char>)>) -> bool {
    &&& forall|i: int, j: int| 0 <= i < s.len() && 0 <= j < s.len() && i != j ==> s[i].0 != s[j].0
    &&& forall|i: int| 0 <= i < s.len() - 1 ==> text_less(s[i].0, #[trigger] s[i + 1].0)
}

/// The map from each first part to its second part.
pub open spec fn pairs_map(s: Seq<(Seq<char>, Seq<char>)>) -> Map<Seq<char>, Seq<char>> {
    Map::new(
        |k: Seq<char>| exists|i: int| 0 <= i < s.len() && s[i].0 == k,
        |k: Seq<char>| s[choose|i: int| 0 <= i < s.len() && s[i].0 == k].1,
    )
}

pub open spec fn pairs_view(v: Seq<(String, String)>) -> Seq<(Seq<char>, Seq<char>)> {
    v.map_values(|p: (String, String)| (p.0@, p.1@))
}

/// The JSON text of an object whose members are the names of the map and their string
/// values, written in the order of the names.
pub uninterp spec fn json_object_text(members: Map<Seq<char>, Seq<char>>) -> Seq<char>;

/// Relies on serde_json::to_string on a BTreeMap of strings: it writes the JSON object
/// of the map's entries, in the map's order, and so depends on the entries alone; an
/// empty map is written `{}`. It fails only where a value's serialisation fails or a
/// map key is not a string, neither of which a string can do, and writing into its
/// own buffer cannot fail. The pairs are already distinct and in order, so the map
/// holds them one for one.
#[verifier::external_body]
fn json_object(members: &Vec<(String, String)>) -> (r: Option<String>)
    requires
        sorted_pairs(pairs_view(members@)),
    ensures
        r is Some,
        r->Some_0@ == json_object_text(pairs_map(pairs_view(members@))),
        r->Some_0@ == seq!['{', '}'] || members@.len() > 0,
{
    let m: std::collections::BTreeMap<&str, &str> =
        members.iter().map(|(k, v)| (k.as_str(), v.as_str())).collect();
    serde_json::to_string(&m).ok()
}

fn str_less(a: &str, b: &str) -> (r: bool)
    ensures
        r == text_less(a@, b@),
{
    let la = a.unicode_len();
    let lb = b.unicode_len();
    let mut i: usize = 0;
    assert(a@.skip(0) =~= a@);
    assert(b@.skip(0) =~= b@);
    while i < la && i < lb
        invariant
            la == a@.len(),
            lb == b@.len(),
            i <= la,
            i <= lb,
            text_less(a@, b@) == text_less(a@.skip(i as int), b@.skip(i as int)),
        decreases la - i,
    {
        let ca = a.get_char(i);
        let cb = b.get_char(i);
        assert(a@.skip(i as int)[0] == ca);
        assert(b@.skip(i as int)[0] == cb);
        if ca != cb {
            return ca < cb;
        }
        assert(a@.skip(i as int).drop_first() =~= a@.skip(i as int + 1));
        assert(b@.skip(i as int).drop_first() =~= b@.skip(i as int + 1));
        i = i + 1;
    }
    i < lb
}

proof fn lemma_pairs_map_at(s: Seq<(Seq<char>, Seq<char>)>, i: int)
    requires
        sorted_pairs(s),
        0 <= i < s.len(),
    ensures
        pairs_map(s).contains_key(s[i].0),
        pairs_map(s)[s[i].0] == s[i].1,
{
    let k = s[i].0;
    assert(exists|j: int| 0 <= j < s.len() && s[j].0 == k);
}

/// Puts a name and its text among the pairs, replacing the text of a name already there.
fn upsert(members: &mut Vec<(String, String)>, k: String, v: String)
    requires
        sorted_pairs(pairs_view(old(members)@)),
    ensures
        sorted_pairs(pairs_view(final(members)@)),
        pairs_map(pairs_view(final(members)@)) == pairs_map(pairs_view(old(members)@)).insert(k@, v@),
{
    let ghost s0 = pairs_view(members@);
    let mut i: usize = 0;
    while i < members.len()
        invariant
            i <= members@.len(),
            members@ == old(members)@,
            s0 == pairs_view(members@),
            sorted_pairs(s0),
            forall|j: int| 0 <= j < i ==> s0[j].0 != k@,
        decreases members@.len() - i,
    {
        if members[i].0 == k {
            let (name, _) = members.remove(i);
            members.insert(i, (name, v));
            proof {
                let s1 = pairs_view(members@);
                assert(s0[i as int].0 == k@);
                assert(s1 =~= s0.update(i as int, (k@, v@)));
                assert(forall|j: int| 0 <= j < s1.len() ==> s1[j].0 == s0[j].0);
                assert(sorted_pairs(s1));
                assert(pairs_map(s1) =~= pairs_map(s0).insert(k@, v@)) by {
                    assert forall|key: Seq<char>| #[trigger] pairs_map(s1).contains_key(key)
                        <==> pairs_map(s0).insert(k@, v@).contains_key(key) by {
                        if pairs_map(s1).contains_key(key) {
                            let j = choose|j: int| 0 <= j < s1.len() && s1[j].0 == key;
                            if j != i {
                                lemma_pairs_map_at(s0, j);
                            }
                        }
                        if pairs_map(s0).contains_key(key) {
                            let j = choose|j: int| 0 <= j < s0.len() && s0[j].0 == key;
                            lemma_pairs_map_at(s1, j);
                        }
                        lemma_pairs_map_at(s1, i as int);
                    }
                    assert forall|key: Seq<char>| pairs_map(s1).contains_key(key) implies
                        #[trigger] pairs_map(s1)[key] == pairs_map(s0).insert(k@, v@)[key] by {
                        let j = choose|j: int| 0 <= j < s1.len() && s1[j].0 == key;
                        lemma_pairs_map_at(s1, j);
                        if j != i {
                            lemma_pairs_map_at(s0, j);
                        }
                    }
                }
            }
            return;
        }
        i = i + 1;
    }
    let mut p: usize = 0;
    while p < members.len() && str_less(members[p].0.as_str(), k.as_str())
        invariant
            p <= members@.len(),
            members@ == old(members)@,
            s0 == pairs_view(members@),
            sorted_pairs(s0),
            forall|j: int| 0 <= j < p ==> text_less(s0[j].0, k@),
            forall|j: int| 0 <= j < s0.len() ==> s0[j].0 != k@,
        decreases members@.len() - p,
    {
        p = p + 1;
    }
    let ghost kv = k@;
    let ghost vv = v@;
    members.insert(p, (k, v));
    proof {
        let s1 = pairs_view(members@);
        assert(s1 =~= s0.insert(p as int, (kv, vv)));
        if p < s0.len() {
            lemma_text_less_total(s0[p as int].0, kv);
        }
        assert(sorted_pairs(s1)) by {
            assert forall|j: int| 0 <= j < s1.len() - 1 implies text_less(s1[j].0, #[trigger] s1[j + 1].0) by {
                if j < p as int - 1 {
                    assert(s1[j] == s0[j] && s1[j + 1] == s0[j + 1]);
                } else if j == p as int - 1 {
                    assert(s1[j] == s0[j] && s1[j + 1].0 == kv);
                } else if j == p as int {
                    assert(s1[j].0 == kv && s1[j + 1] == s0[j]);
                    assert(!text_less(s0[j].0, kv));
                } else {
                    assert(s1[j] == s0[j - 1] && s1[j + 1] == s0[j]);
                    assert(text_less(s0[j - 1].0, s0[(j - 1) + 1].0));
                }
            }
        }
        assert(pairs_map(s1) =~= pairs_map(s0).insert(kv, vv)) by {
            assert forall|key: Seq<char>| #[trigger] pairs_map(s1).contains_key(key)
                <==> pairs_map(s0).insert(kv, vv).contains_key(key) by {
                if pairs_map(s1).contains_key(key) {
                    let j = choose|j: int| 0 <= j < s1.len() && s1[j].0 == key;
                    if j < p {
                        lemma_pairs_map_at(s0, j);
                    } else if j > p {
                        lemma_pairs_map_at(s0, j - 1);
                    }
                }
                if pairs_map(s0).contains_key(key) {
                    let j = choose|j: int| 0 <= j < s0.len() && s0[j].0 == key;
                    if j < p {
                        lemma_pairs_map_at(s1, j);
                    } else {
                        lemma_pairs_map_at(s1, j + 1);
                    }
                }
                lemma_pairs_map_at(s1, p as int);
            }
            assert forall|key: Seq<char>| pairs_map(s1).contains_key(key) implies
                #[trigger] pairs_map(s1)[key] == pairs_map(s0).insert(kv, vv)[key] by {
                let j = choose|j: int| 0 <= j < s1.len() && s1[j].0 == key;
                lemma_pairs_map_at(s1, j);
                if j < p {
                    lemma_pairs_map_at(s0, j);
                } else if j > p {
                    lemma_pairs_map_at(s0, j - 1);
                }
            }
        }
    }
}

/// The text of an accumulator's state.
pub fn measure_text_of(v: &Measurement) -> (r: String)
    ensures
        r@ == measure_text(v@),
{
    match v {
        Measurement::Counter(c) => u64_text(*c),
        Measurement::Gauge(g) => i64_text(*g),
        Measurement::Histogram(h) => list_of_u64_text(h),
    }
}

/// Each metric name of the snapshot with the text of its accumulator, ordered by name.
pub fn rendered_members(snapshot: &Snapshot) -> (r: Vec<(String, String)>)
    ensures
        sorted_pairs(pairs_view(r@)),
        pairs_map(pairs_view(r@)) == flat_map(snapshot@),
{
    let mut out: Vec<(String, String)> = Vec::new();
    assert(pairs_map(pairs_view(out@)) =~= flat_map(snapshot@.subrange(0, 0)));
    let mut i: usize = 0;
    while i < snapshot.len()
        invariant
            i <= snapshot@.len(),
            sorted_pairs(pairs_view(out@)),
            pairs_map(pairs_view(out@)) == flat_map(snapshot@.subrange(0, i as int)),
        decreases snapshot@.len() - i,
    {
        let name = snapshot.name(i).clone();
        let text = measure_text_of(snapshot.measurement(i));
        upsert(&mut out, name, text);
        assert(snapshot@.subrange(0, i as int + 1).drop_last() =~= snapshot@.subrange(0, i as int));
        i = i + 1;
    }
    assert(snapshot@.subrange(0, snapshot@.len() as int) =~= snapshot@);
    out
}

/// The snapshot as a JSON object from each metric name to the text of its accumulator,
/// ordered by name.
pub fn render_snapshot(snapshot: &Snapshot) -> (r: Result<String, MetricError>)
    ensures
        r is Ok,
        r matches Ok(t) ==> t@ == json_object_text(flat_map(snapshot@)),
        snapshot@.len() == 0 ==> r->Ok_0@ == seq!['{', '}'],
{
    let members = rendered_members(snapshot);
    proof {
        if snapshot@.len() == 0 {
            assert(flat_map(snapshot@) =~= Map::empty());
            if members@.len() > 0 {
                lemma_pairs_map_at(pairs_view(members@), 0);
            }
        }
    }
    match json_object(&members) {
        Some(t) => Ok(t),
        None => Err(MetricError::Serialization),
    }
}

/// Reading back the text of an accumulator gives its state: a counter's total and a
/// gauge's value as integers, a histogram's observations as the same list of values.
pub proof fn lemma_measure_round_trip(m: MeasureView)
    requires
        m.0 == Kind::Counter ==> 0 <= m.1,
    ensures
        m.0 == Kind::Counter ==> decimal_value(measure_text(m)) == m.1,
        m.0 == Kind::Gauge ==> signed_value(measure_text(m)) == m.1,
        m.0 == Kind::Histogram ==> list_value(measure_text(m)) == m.2.map_values(|v: u64| v as nat),
{
    if m.0 == Kind::Counter {
        lemma_decimal_round_trip(m.1 as nat);
    } else if m.0 == Kind::Gauge {
        lemma_signed_round_trip(m.1);
    } else {
        lemma_list_round_trip(m.2);
    }
}

/// The names that the rendered map holds are exactly the metric names of the entries,
/// and each stands with the text of the last entry of its name.
pub proof fn lemma_flat_map_names(s: StoreView)
    ensures
        forall|n: Seq<char>| #[trigger] flat_map(s).contains_key(n) <==> exists|i: int|
            0 <= i < s.len() && s[i].0.0 == n,
        forall|i: int|
            0 <= i < s.len() && (forall|j: int| i < j < s.len() ==> s[j].0.0 != s[i].0.0)
                ==> #[trigger] flat_map(s)[s[i].0.0] == measure_text(s[i].1),
    decreases s.len(),
{
    if s.len() > 0 {
        let p = s.drop_last();
        lemma_flat_map_names(p);
        assert(flat_map(s) == flat_map(p).insert(s.last().0.0, measure_text(s.last().1)));
        assert forall|n: Seq<char>| #[trigger] flat_map(s).contains_key(n) <==> exists|i: int|
            0 <= i < s.len() && s[i].0.0 == n by {
            if flat_map(p).contains_key(n) {
                let i = choose|i: int| 0 <= i < p.len() && p[i].0.0 == n;
                assert(s[i] == p[i]);
            }
            if exists|i: int| 0 <= i < s.len() && s[i].0.0 == n {
                let i = choose|i: int| 0 <= i < s.len() && s[i].0.0 == n;
                if i < p.len() {
                    assert(p[i] == s[i]);
                }
            }
        }
        assert forall|i: int|
            0 <= i < s.len() && (forall|j: int| i < j < s.len() ==> s[j].0.0 != s[i].0.0)
                implies #[trigger] flat_map(s)[s[i].0.0] == measure_text(s[i].1) by {
            if i < p.len() {
                assert(s[s.len() - 1].0.0 != s[i].0.0);
                assert(p[i] == s[i]);
                assert forall|j: int| i < j < p.len() implies p[j].0.0 != p[i].0.0 by {
                    assert(p[j] == s[j]);
                }
                assert(flat_map(p)[p[i].0.0] == measure_text(p[i].1));
            }
        }
    }
}

} // verus!
