use vstd::multiset::Multiset;
use vstd::prelude::*;

verus! {

/// A column value as SQLite orders it: NULL first, then integers, then text.
pub enum Value {
    Null,
    Int(i64),
    Text(Vec<char>),
}

/// One term of an `ORDER BY` clause, ascending or descending.
pub enum Part {
    Asc(Value),
    Desc(Value),
}

/// What a `Value` stands for.
pub enum KeyValue {
    Null,
    Int(int),
    Text(Seq<char>),
}

/// What a `Part` stands for.
pub enum KeyPart {
    Asc(KeyValue),
    Desc(KeyValue),
}

impl View for Value {
    type V = KeyValue;

    open spec fn view(&self) -> KeyValue {
        match self {
            Value::Null => KeyValue::Null,
            Value::Int(x) => KeyValue::Int(*x as int),
            Value::Text(t) => KeyValue::Text(t@),
        }
    }
}

impl View for Part {
    type V = KeyPart;

    open spec fn view(&self) -> KeyPart {
        match self {
            Part::Asc(v) => KeyPart::Asc(v@),
            Part::Desc(v) => KeyPart::Desc(v@),
        }
    }
}

/// What an executable sort key stands for.
pub open spec fn key_view(k: Vec<Part>) -> Seq<KeyPart> {
    k@.map_values(|p: Part| p@)
}

/// Lexicographic order of two texts by code point, which is the order of
/// their UTF-8 bytes (SQLite's `BINARY` collation).
pub open spec fn text_order(a: Seq<char>, b: Seq<char>) -> int
    decreases a.len(),
{
    if a.len() == 0 {
        if b.len() == 0 {
            0
        } else {
            -1
        }
    } else if b.len() == 0 {
        1
    } else if (a[0] as u32) < (b[0] as u32) {
        -1
    } else if (a[0] as u32) > (b[0] as u32) {
        1
    } else {
        text_order(a.drop_first(), b.drop_first())
    }
}

pub open spec fn value_order(a: KeyValue, b: KeyValue) -> int {
    match (a, b) {
        (KeyValue::Null, KeyValue::Null) => 0,
        (KeyValue::Null, _) => -1,
        (_, KeyValue::Null) => 1,
        (KeyValue::Int(x), KeyValue::Int(y)) => if x < y {
            -1
        } else if x > y {
            1
        } else {
            0
        },
        (KeyValue::Int(_), KeyValue::Text(_)) => -1,
        (KeyValue::Text(_), KeyValue::Int(_)) => 1,
        (KeyValue::Text(x), KeyValue::Text(y)) => text_order(x, y),
    }
}

pub open spec fn part_order(a: KeyPart, b: KeyPart) -> int {
    match (a, b) {
        (KeyPart::Asc(x), KeyPart::Asc(y)) => value_order(x, y),
        (KeyPart::Desc(x), KeyPart::Desc(y)) => value_order(y, x),
        (KeyPart::Asc(_), KeyPart::Desc(_)) => -1,
        (KeyPart::Desc(_), KeyPart::Asc(_)) => 1,
    }
}

/// Lexicographic comparison of two sort keys, term by term.
pub open spec fn key_order(a: Seq<KeyPart>, b: Seq<KeyPart>) -> int
    decreases a.len(),
{
    if a.len() == 0 {
        if b.len() == 0 {
            0
        } else {
            -1
        }
    } else if b.len() == 0 {
        1
    } else if part_order(a[0], b[0]) != 0 {
        part_order(a[0], b[0])
    } else {
        key_order(a.drop_first(), b.drop_first())
    }
}

pub open spec fn key_le(a: Seq<KeyPart>, b: Seq<KeyPart>) -> bool {
    key_order(a, b) <= 0
}

/// The rows are in the order that their keys give (ties in any order).
pub open spec fn keyed_sorted<T>(s: Seq<(Vec<Part>, T)>) -> bool {
    forall|i: int, j: int|
        0 <= i < j < s.len() ==> key_le(key_view(#[trigger] s[i].0), key_view(#[trigger] s[j].0))
}

/// The three facts that make a comparison a total preorder.
pub open spec fn order_laws(ab: int, ba: int, bc: int, ac: int) -> bool {
    &&& ab == -ba
    &&& (ab <= 0 && bc <= 0 ==> ac <= 0)
    &&& (ab < 0 && bc <= 0 ==> ac < 0)
    &&& (ab <= 0 && bc < 0 ==> ac < 0)
}

pub proof fn lemma_text_order(a: Seq<char>, b: Seq<char>, c: Seq<char>)
    ensures
        order_laws(text_order(a, b), text_order(b, a), text_order(b, c), text_order(a, c)),
        -1 <= text_order(a, b) <= 1,
    decreases a.len(),
{
    if a.len() > 0 && b.len() > 0 && c.len() > 0 {
        lemma_text_order(a.drop_first(), b.drop_first(), c.drop_first());
    } else if a.len() > 0 && b.len() > 0 {
        lemma_text_order(a.drop_first(), b.drop_first(), b.drop_first());
    }
}

pub proof fn lemma_value_order(a: KeyValue, b: KeyValue, c: KeyValue)
    ensures
        order_laws(value_order(a, b), value_order(b, a), value_order(b, c), value_order(a, c)),
        -1 <= value_order(a, b) <= 1,
{
    match (a, b, c) {
        (KeyValue::Text(x), KeyValue::Text(y), KeyValue::Text(z)) => lemma_text_order(x, y, z),
        (KeyValue::Text(x), KeyValue::Text(y), _) => lemma_text_order(x, y, y),
        _ => {},
    }
}

pub proof fn lemma_part_order(a: KeyPart, b: KeyPart, c: KeyPart)
    ensures
        order_laws(part_order(a, b), part_order(b, a), part_order(b, c), part_order(a, c)),
        -1 <= part_order(a, b) <= 1,
{
    match (a, b, c) {
        (KeyPart::Asc(x), KeyPart::Asc(y), KeyPart::Asc(z)) => lemma_value_order(x, y, z),
        (KeyPart::Desc(x), KeyPart::Desc(y), KeyPart::Desc(z)) => {
            lemma_value_order(z, y, x);
            lemma_value_order(y, x, x);
        },
        (KeyPart::Asc(x), KeyPart::Asc(y), _) => lemma_value_order(x, y, y),
        (KeyPart::Desc(x), KeyPart::Desc(y), _) => lemma_value_order(y, x, x),
        _ => {},
    }
}

pub proof fn lemma_key_order(a: Seq<KeyPart>, b: Seq<KeyPart>, c: Seq<KeyPart>)
    ensures
        order_laws(key_order(a, b), key_order(b, a), key_order(b, c), key_order(a, c)),
    decreases a.len(),
{
    if a.len() > 0 && b.len() > 0 && c.len() > 0 {
        lemma_part_order(a[0], b[0], c[0]);
        lemma_part_order(b[0], a[0], c[0]);
        lemma_part_order(a[0], c[0], b[0]);
        lemma_key_order(a.drop_first(), b.drop_first(), c.drop_first());
    } else if a.len() > 0 && b.len() > 0 {
        lemma_part_order(a[0], b[0], b[0]);
        lemma_key_order(a.drop_first(), b.drop_first(), b.drop_first());
    }
}

pub fn text_compare(a: &Vec<char>, b: &Vec<char>) -> (r: i8)
    ensures
        r == text_order(a@, b@),
{
    let mut i: usize = 0;
    assert(a@.skip(0) =~= a@);
    assert(b@.skip(0) =~= b@);
    while i < a.len() && i < b.len()
        invariant
            i <= a.len(),
            i <= b.len(),
            text_order(a@, b@) == text_order(a@.skip(i as int), b@.skip(i as int)),
        decreases a.len() - i,
    {
        let x = a[i] as u32;
        let y = b[i] as u32;
        assert(a@.skip(i as int)[0] == a@[i as int]);
        assert(b@.skip(i as int)[0] == b@[i as int]);
        if x < y {
            return -1;
        }
        if x > y {
            return 1;
        }
        assert(a@.skip(i as int).drop_first() =~= a@.skip(i + 1));
        assert(b@.skip(i as int).drop_first() =~= b@.skip(i + 1));
        i = i + 1;
    }
    if i < b.len() {
        -1
    } else if i < a.len() {
        1
    } else {
        0
    }
}

pub fn value_compare(a: &Value, b: &Value) -> (r: i8)
    ensures
        r == value_order(a@, b@),
{
    match (a, b) {
        (Value::Null, Value::Null) => 0,
        (Value::Null, _) => -1,
        (_, Value::Null) => 1,
        (Value::Int(x), Value::Int(y)) => if *x < *y {
            -1
        } else if *x > *y {
            1
        } else {
            0
        },
        (Value::Int(_), Value::Text(_)) => -1,
        (Value::Text(_), Value::Int(_)) => 1,
        (Value::Text(x), Value::Text(y)) => text_compare(x, y),
    }
}

pub fn part_compare(a: &Part, b: &Part) -> (r: i8)
    ensures
        r == part_order(a@, b@),
{
    match (a, b) {
        (Part::Asc(x), Part::Asc(y)) => value_compare(x, y),
        (Part::Desc(x), Part::Desc(y)) => value_compare(y, x),
        (Part::Asc(_), Part::Desc(_)) => -1,
        (Part::Desc(_), Part::Asc(_)) => 1,
    }
}

pub fn key_compare(a: &Vec<Part>, b: &Vec<Part>) -> (r: i8)
    ensures
        r == key_order(key_view(*a), key_view(*b)),
{
    let ghost ka = key_view(*a);
    let ghost kb = key_view(*b);
    let mut i: usize = 0;
    assert(ka.skip(0) =~= ka);
    assert(kb.skip(0) =~= kb);
    while i < a.len() && i < b.len()
        invariant
            i <= a.len(),
            i <= b.len(),
            ka == key_view(*a),
            kb == key_view(*b),
            key_order(ka, kb) == key_order(ka.skip(i as int), kb.skip(i as int)),
        decreases a.len() - i,
    {
        assert(ka.skip(i as int)[0] == a@[i as int]@);
        assert(kb.skip(i as int)[0] == b@[i as int]@);
        let c = part_compare(&a[i], &b[i]);
        if c != 0 {
            return c;
        }
        assert(ka.skip(i as int).drop_first() =~= ka.skip(i + 1));
        assert(kb.skip(i as int).drop_first() =~= kb.skip(i + 1));
        i = i + 1;
    }
    if i < b.len() {
        -1
    } else if i < a.len() {
        1
    } else {
        0
    }
}

/// The first position whose key is greater than `k` in a sorted sequence:
/// every key before it is at most `k`, every key from it on is greater.
pub fn upper_bound<T>(v: &Vec<(Vec<Part>, T)>, k: &Vec<Part>) -> (p: usize)
    requires
        keyed_sorted(v@),
    ensures
        p <= v@.len(),
        forall|i: int| 0 <= i < p ==> key_le(key_view(#[trigger] v@[i].0), key_view(*k)),
        forall|i: int| p <= i < v@.len() ==> key_order(key_view(#[trigger] v@[i].0), key_view(*k)) > 0,
{
    let mut lo: usize = 0;
    let mut hi: usize = v.len();
    while lo < hi
        invariant
            lo <= hi <= v@.len(),
            keyed_sorted(v@),
            forall|i: int| 0 <= i < lo ==> key_le(key_view(#[trigger] v@[i].0), key_view(*k)),
            forall|i: int| hi <= i < v@.len() ==> key_order(key_view(#[trigger] v@[i].0), key_view(*k)) > 0,
        decreases hi - lo,
    {
        let mid = lo + (hi - lo) / 2;
        let c = key_compare(&v[mid].0, k);
        if c <= 0 {
            assert forall|i: int| 0 <= i < mid + 1 implies key_le(
                key_view(#[trigger] v@[i].0),
                key_view(*k),
            ) by {
                if i < mid {
                    lemma_key_order(key_view(v@[i].0), key_view(v@[mid as int].0), key_view(*k));
                }
            }
            lo = mid + 1;
        } else {
            assert forall|i: int| mid <= i < v@.len() implies key_order(
                key_view(#[trigger] v@[i].0),
                key_view(*k),
            ) > 0 by {
                if i > mid {
                    lemma_key_order(key_view(*k), key_view(v@[mid as int].0), key_view(v@[i].0));
                    lemma_key_order(key_view(v@[mid as int].0), key_view(*k), key_view(v@[i].0));
                    lemma_key_order(key_view(v@[i].0), key_view(*k), key_view(*k));
                }
            }
            hi = mid;
        }
    }
    lo
}

/// Inserting at the upper bound of a key keeps a sequence sorted.
pub proof fn lemma_insert_sorted<T>(v: Seq<(Vec<Part>, T)>, p: int, x: (Vec<Part>, T))
    requires
        keyed_sorted(v),
        0 <= p <= v.len(),
        forall|i: int| 0 <= i < p ==> key_le(key_view(#[trigger] v[i].0), key_view(x.0)),
        forall|i: int| p <= i < v.len() ==> key_order(key_view(#[trigger] v[i].0), key_view(x.0)) > 0,
    ensures
        keyed_sorted(v.insert(p, x)),
{
    let w = v.insert(p, x);
    v.insert_ensures(p, x);
    assert forall|i: int, j: int| 0 <= i < j < w.len() implies key_le(
        key_view(#[trigger] w[i].0),
        key_view(#[trigger] w[j].0),
    ) by {
        if j < p {
        } else if j == p {
        } else if i < p {
            assert(w[j] == v[j - 1]);
            lemma_key_order(key_view(w[i].0), key_view(x.0), key_view(v[j - 1].0));
            lemma_key_order(key_view(v[j - 1].0), key_view(x.0), key_view(x.0));
        } else if i == p {
            assert(w[j] == v[j - 1]);
            lemma_key_order(key_view(v[j - 1].0), key_view(x.0), key_view(x.0));
        } else {
            assert(w[i] == v[i - 1]);
            assert(w[j] == v[j - 1]);
        }
    }
}

/// Sorts keyed rows by their keys; rows with equal keys keep their order.
pub fn sort_keyed<T>(items: Vec<(Vec<Part>, T)>) -> (out: Vec<(Vec<Part>, T)>)
    ensures
        out@.to_multiset() == items@.to_multiset(),
        keyed_sorted(out@),
{
    broadcast use vstd::seq_lib::group_to_multiset_ensures, vstd::multiset::group_multiset_axioms;

    let mut rest = items;
    let mut out: Vec<(Vec<Part>, T)> = Vec::new();
    let ghost orig = rest@;
    assert(out@.to_multiset().add(rest@.to_multiset()) =~= orig.to_multiset());
    while rest.len() > 0
        invariant
            out@.to_multiset().add(rest@.to_multiset()) == orig.to_multiset(),
            keyed_sorted(out@),
        decreases rest.len(),
    {
        let ghost before = rest@;
        let x = rest.remove(0);
        assert(before.remove(0) == rest@);
        assert(before[0] == x);
        proof {
            vstd::seq_lib::to_multiset_remove(before, 0);
            vstd::seq_lib::to_multiset_contains(before, x);
        }
        let p = upper_bound(&out, &x.0);
        let ghost prev = out@;
        proof {
            lemma_insert_sorted(prev, p as int, x);
        }
        out.insert(p, x);
        proof {
            vstd::seq_lib::to_multiset_insert(prev, p as int, x);
        }
        assert(out@.to_multiset().add(rest@.to_multiset()) =~= orig.to_multiset());
    }
    assert(rest@ =~= Seq::<(Vec<Part>, T)>::empty());
    assert(rest@.to_multiset() =~= Multiset::empty());
    out
}

} // verus!
