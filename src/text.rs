use vstd::prelude::*;

verus! {

/// The character of a decimal digit.
pub open spec fn digit_char(d: nat) -> char {
    if d == 0 { '0' } else if d == 1 { '1' } else if d == 2 { '2' } else if d == 3 { '3' }
    else if d == 4 { '4' } else if d == 5 { '5' } else if d == 6 { '6' } else if d == 7 { '7' }
    else if d == 8 { '8' } else { '9' }
}

/// The value of a decimal digit character.
pub open spec fn digit_value(c: char) -> nat {
    if c == '1' { 1 } else if c == '2' { 2 } else if c == '3' { 3 } else if c == '4' { 4 }
    else if c == '5' { 5 } else if c == '6' { 6 } else if c == '7' { 7 } else if c == '8' { 8 }
    else if c == '9' { 9 } else { 0 }
}

/// The decimal text of a natural number, most significant digit first.
pub open spec fn decimal_text(n: nat) -> Seq<char>
    decreases n,
{
    if n < 10 {
        seq![digit_char(n)]
    } else {
        decimal_text(n / 10).push(digit_char(n % 10))
    }
}

/// The number that a text of decimal digits reads as.
pub open spec fn decimal_value(s: Seq<char>) -> nat
    decreases s.len(),
{
    if s.len() == 0 {
        0
    } else {
        decimal_value(s.drop_last()) * 10 + digit_value(s.last())
    }
}

/// The text of a signed integer: a minus sign before the magnitude when negative.
pub open spec fn signed_text(v: int) -> Seq<char> {
    if v < 0 {
        seq!['-'] + decimal_text((-v) as nat)
    } else {
        decimal_text(v as nat)
    }
}

/// The values of a list joined by a comma and a space.
pub open spec fn items_text(s: Seq<u64>) -> Seq<char>
    decreases s.len(),
{
    if s.len() == 0 {
        Seq::empty()
    } else if s.len() == 1 {
        decimal_text(s[0] as nat)
    } else {
        items_text(s.drop_last()) + seq![',', ' '] + decimal_text(s.last() as nat)
    }
}

/// A list of values written between square brackets, as `[1, 2, 3]`.
pub open spec fn list_text(s: Seq<u64>) -> Seq<char> {
    seq!['['] + items_text(s) + seq![']']
}

/// Reading back the decimal text of a number gives the number.
pub proof fn lemma_decimal_round_trip(n: nat)
    ensures
        decimal_value(decimal_text(n)) == n,
        decimal_text(n).len() > 0,
    decreases n,
{
    if n < 10 {
        assert(seq![digit_char(n)].drop_last() =~= Seq::<char>::empty());
        assert(digit_value(digit_char(n)) == n);
        assert(decimal_value(Seq::<char>::empty()) == 0);
        assert(decimal_value(decimal_text(n)) == decimal_value(Seq::<char>::empty()) * 10
            + digit_value(digit_char(n)));
    } else {
        lemma_decimal_round_trip(n / 10);
        assert(decimal_text(n).drop_last() =~= decimal_text(n / 10));
        let d = n % 10;
        assert(digit_value(digit_char(d)) == d);
        assert(decimal_text(n).last() == digit_char(d));
        assert(n == (n / 10) * 10 + d);
        assert(decimal_value(decimal_text(n)) == decimal_value(decimal_text(n / 10)) * 10
            + digit_value(digit_char(d)));
    }
}

/// The number that a text of decimal digits with an optional leading minus sign reads as.
pub open spec fn signed_value(s: Seq<char>) -> int {
    if s.len() > 0 && s[0] == '-' {
        -(decimal_value(s.drop_first()) as int)
    } else {
        decimal_value(s) as int
    }
}

/// Reading back the text of a signed integer gives the integer.
pub proof fn lemma_signed_round_trip(v: int)
    ensures
        signed_value(signed_text(v)) == v,
{
    if v < 0 {
        lemma_decimal_round_trip((-v) as nat);
        assert((seq!['-'] + decimal_text((-v) as nat)).drop_first() =~= decimal_text((-v) as nat));
    } else {
        lemma_decimal_round_trip(v as nat);
        if decimal_text(v as nat)[0] == '-' {
            lemma_leading_digit(v as nat);
        }
    }
}

proof fn lemma_leading_digit(n: nat)
    ensures
        decimal_text(n)[0] != '-',
    decreases n,
{
    if n >= 10 {
        lemma_leading_digit(n / 10);
        crate::text::lemma_decimal_round_trip(n / 10);
    }
}

/// Where the last comma of a text stands, or -1.
pub open spec fn last_comma(t: Seq<char>) -> int
    decreases t.len(),
{
    if t.len() == 0 {
        -1
    } else if t.last() == ',' {
        t.len() - 1
    } else {
        last_comma(t.drop_last())
    }
}

/// The values that a text of decimal numbers separated by a comma and a space reads as.
pub open spec fn items_value(t: Seq<char>) -> Seq<nat>
    decreases t.len(),
{
    let i = last_comma(t);
    if t.len() == 0 {
        Seq::empty()
    } else if i < 0 || i >= t.len() {
        seq![decimal_value(t)]
    } else {
        items_value(t.subrange(0, i)).push(decimal_value(t.subrange(i + 2, t.len() as int)))
    }
}

/// The values that a bracketed list reads as.
pub open spec fn list_value(t: Seq<char>) -> Seq<nat> {
    items_value(t.subrange(1, t.len() - 1))
}

proof fn lemma_decimal_no_comma(n: nat)
    ensures
        forall|i: int| 0 <= i < decimal_text(n).len() ==> decimal_text(n)[i] != ',',
    decreases n,
{
    assert(digit_char(n % 10) != ',');
    if n >= 10 {
        lemma_decimal_no_comma(n / 10);
        let t = decimal_text(n);
        assert(t == decimal_text(n / 10).push(digit_char(n % 10)));
        assert forall|i: int| 0 <= i < t.len() implies t[i] != ',' by {
            if i < t.len() - 1 {
                assert(t[i] == decimal_text(n / 10)[i]);
            }
        }
    } else {
        assert(digit_char(n) != ',');
    }
}

proof fn lemma_last_comma_skips(x: Seq<char>, d: Seq<char>)
    requires
        forall|i: int| 0 <= i < d.len() ==> d[i] != ',',
    ensures
        last_comma(x + d) == last_comma(x),
    decreases d.len(),
{
    if d.len() == 0 {
        assert(x + d =~= x);
    } else {
        assert((x + d).drop_last() =~= x + d.drop_last());
        lemma_last_comma_skips(x, d.drop_last());
    }
}

proof fn lemma_last_comma_range(t: Seq<char>)
    ensures
        -1 <= last_comma(t) < t.len(),
    decreases t.len(),
{
    if t.len() > 0 {
        lemma_last_comma_range(t.drop_last());
    }
}

/// Reading back the text of a list of values gives the values.
pub proof fn lemma_items_round_trip(s: Seq<u64>)
    ensures
        items_value(items_text(s)) == s.map_values(|v: u64| v as nat),
    decreases s.len(),
{
    if s.len() == 0 {
        assert(items_text(s) =~= Seq::<char>::empty());
        assert(s.map_values(|v: u64| v as nat) =~= Seq::<nat>::empty());
    } else if s.len() == 1 {
        let t = decimal_text(s[0] as nat);
        lemma_decimal_no_comma(s[0] as nat);
        lemma_decimal_round_trip(s[0] as nat);
        lemma_last_comma_skips(Seq::empty(), t);
        assert(Seq::<char>::empty() + t =~= t);
        assert(s.map_values(|v: u64| v as nat) =~= seq![s[0] as nat]);
    } else {
        let p = items_text(s.drop_last());
        let d = decimal_text(s.last() as nat);
        let t = items_text(s);
        assert(t == p + seq![',', ' '] + d);
        lemma_decimal_no_comma(s.last() as nat);
        lemma_decimal_round_trip(s.last() as nat);
        lemma_last_comma_skips(p + seq![',', ' '], d);
        let x = p + seq![',', ' '];
        assert(x.drop_last() =~= p.push(','));
        assert(last_comma(x) == last_comma(x.drop_last()));
        assert(last_comma(x) == p.len());
        assert(t.subrange(0, p.len() as int) =~= p);
        assert(t.subrange(p.len() as int + 2, t.len() as int) =~= d);
        lemma_items_round_trip(s.drop_last());
        assert(s.map_values(|v: u64| v as nat) =~= s.drop_last().map_values(|v: u64| v as nat).push(
            s.last() as nat,
        ));
    }
}

/// Reading back the bracketed text of a list of values gives the values.
pub proof fn lemma_list_round_trip(s: Seq<u64>)
    ensures
        list_value(list_text(s)) == s.map_values(|v: u64| v as nat),
{
    lemma_items_round_trip(s);
    assert(list_text(s).subrange(1, list_text(s).len() - 1) =~= items_text(s));
}

fn digit(d: u64) -> (r: &'static str)
    requires
        d < 10,
    ensures
        r@ == seq![digit_char(d as nat)],
{
    if d == 0 {
        proof { reveal_strlit("0"); }
        "0"
    } else if d == 1 {
        proof { reveal_strlit("1"); }
        "1"
    } else if d == 2 {
        proof { reveal_strlit("2"); }
        "2"
    } else if d == 3 {
        proof { reveal_strlit("3"); }
        "3"
    } else if d == 4 {
        proof { reveal_strlit("4"); }
        "4"
    } else if d == 5 {
        proof { reveal_strlit("5"); }
        "5"
    } else if d == 6 {
        proof { reveal_strlit("6"); }
        "6"
    } else if d == 7 {
        proof { reveal_strlit("7"); }
        "7"
    } else if d == 8 {
        proof { reveal_strlit("8"); }
        "8"
    } else {
        proof { reveal_strlit("9"); }
        "9"
    }
}

/// Appends the decimal text of `n`.
pub fn push_decimal(out: &mut String, n: u64)
    ensures
        final(out)@ == old(out)@ + decimal_text(n as nat),
    decreases n,
{
    if n >= 10 {
        push_decimal(out, n / 10);
    }
    let c = digit(n % 10);
    out.append(c);
    assert(decimal_text(n as nat) == if n < 10 { seq![digit_char(n as nat)] } else {
        decimal_text((n / 10) as nat).push(digit_char((n % 10) as nat))
    });
}

/// The decimal text of an unsigned integer.
pub fn u64_text(n: u64) -> (r: String)
    ensures
        r@ == decimal_text(n as nat),
{
    let mut out = String::new();
    push_decimal(&mut out, n);
    out
}

/// The decimal text of a signed integer.
pub fn i64_text(v: i64) -> (r: String)
    ensures
        r@ == signed_text(v as int),
{
    let mut out = String::new();
    if v < 0 {
        out.append("-");
        proof { reveal_strlit("-"); }
        let magnitude: u64 = ((-(v + 1)) as u64) + 1;
        push_decimal(&mut out, magnitude);
    } else {
        push_decimal(&mut out, v as u64);
    }
    out
}

/// The text of a list of values, as `[1, 2, 3]`.
pub fn list_of_u64_text(values: &Vec<u64>) -> (r: String)
    ensures
        r@ == list_text(values@),
{
    let mut out = String::new();
    out.append("[");
    proof { reveal_strlit("["); }
    let mut i: usize = 0;
    while i < values.len()
        invariant
            i <= values@.len(),
            out@ == seq!['['] + items_text(values@.subrange(0, i as int)),
        decreases values@.len() - i,
    {
        let ghost before = out@;
        if i > 0 {
            out.append(", ");
            proof { reveal_strlit(", "); }
        }
        push_decimal(&mut out, values[i]);
        proof {
            let s = values@.subrange(0, i as int + 1);
            assert(s.drop_last() =~= values@.subrange(0, i as int));
            if i == 0 {
                assert(items_text(values@.subrange(0, 0)) =~= Seq::<char>::empty());
                assert(out@ =~= seq!['['] + items_text(s));
            } else {
                assert(out@ =~= seq!['['] + items_text(s));
            }
        }
        i = i + 1;
    }
    assert(values@.subrange(0, values@.len() as int) =~= values@);
    out.append("]");
    proof { reveal_strlit("]"); }
    out
}

/// Whether two texts hold the same characters.
pub fn str_eq(a: &str, b: &str) -> (r: bool)
    ensures
        r == (a@ == b@),
{
    let la = a.unicode_len();
    let lb = b.unicode_len();
    if la != lb {
        return false;
    }
    let mut i: usize = 0;
    while i < la
        invariant
            la == a@.len(),
            lb == b@.len(),
            la == lb,
            i <= la,
            forall|j: int| 0 <= j < i ==> a@[j] == b@[j],
        decreases la - i,
    {
        if a.get_char(i) != b.get_char(i) {
            return false;
        }
        i = i + 1;
    }
    assert(a@ =~= b@);
    true
}

} // verus!
