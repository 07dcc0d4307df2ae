//! Unix paths as `std::path::Path` reads them: the last component, its
//! stem and extension, and the component-wise order that sorting paths uses.

use vstd::prelude::*;

use crate::order::{key_le, key_view, sort_keyed, KeyPart, KeyValue, Part, Value};
use crate::text::{chars_of, fold_text, folded_chars, string_of};
use crate::seq_facts::{lemma_filter_take_step, lemma_multiset_map, lemma_multiset_member};

verus! {

/// The text split at every `/` (n separators give n + 1 pieces).
pub open spec fn pieces(p: Seq<char>) -> Seq<Seq<char>>
    decreases p.len(),
{
    if p.len() == 0 {
        seq![Seq::empty()]
    } else {
        let rest = pieces(p.drop_last());
        if p.last() == '/' {
            rest.push(Seq::empty())
        } else {
            rest.update(rest.len() - 1, rest.last().push(p.last()))
        }
    }
}

pub proof fn lemma_pieces_nonempty(p: Seq<char>)
    ensures
        pieces(p).len() >= 1,
    decreases p.len(),
{
    if p.len() > 0 {
        lemma_pieces_nonempty(p.drop_last());
    }
}

/// A piece that names something: not empty and not `.`.
pub open spec fn named(x: Seq<char>) -> bool {
    x.len() > 0 && x != seq!['.']
}

pub open spec fn named_pieces(p: Seq<char>) -> Seq<Seq<char>> {
    pieces(p).filter(|x: Seq<char>| named(x))
}

/// `Path::file_name`: the last component when it is a normal one.
pub open spec fn file_name(p: Seq<char>) -> Option<Seq<char>> {
    let ns = named_pieces(p);
    if ns.len() == 0 || ns.last() == seq!['.', '.'] {
        None
    } else {
        Some(ns.last())
    }
}

/// Whether the name has a `.` after its first character, and where the last
/// one is.
pub open spec fn last_dot(name: Seq<char>) -> Option<int> {
    if exists|i: int| 0 < i < name.len() && name[i] == '.' {
        Some(
            choose|i: int|
                0 < i < name.len() && name[i] == '.' && forall|j: int| i < j < name.len() ==> name[j] != '.',
        )
    } else {
        None
    }
}

/// `Path::file_stem`: the file name up to its last `.`, unless that dot is
/// its first character.
pub open spec fn file_stem(p: Seq<char>) -> Option<Seq<char>> {
    match file_name(p) {
        None => None,
        Some(name) => match last_dot(name) {
            Some(i) => Some(name.take(i)),
            None => Some(name),
        },
    }
}

/// `Path::extension`: the file name after its last `.`, unless that dot is
/// its first character.
pub open spec fn extension(p: Seq<char>) -> Option<Seq<char>> {
    match file_name(p) {
        None => None,
        Some(name) => match last_dot(name) {
            Some(i) => Some(name.skip(i + 1)),
            None => None,
        },
    }
}

/// The pieces of a path, in order.
pub fn split_path(p: &str) -> (r: Vec<Vec<char>>)
    ensures
        r@.len() == pieces(p@).len(),
        forall|i: int| 0 <= i < r@.len() ==> (#[trigger] r@[i])@ == pieces(p@)[i],
{
    let cs = chars_of(p);
    let mut r: Vec<Vec<char>> = Vec::new();
    r.push(Vec::new());
    let mut i: usize = 0;
    assert(cs@.take(0) =~= Seq::<char>::empty());
    while i < cs.len()
        invariant
            0 <= i <= cs.len(),
            cs@ == p@,
            r@.len() == pieces(cs@.take(i as int)).len(),
            r@.len() >= 1,
            forall|k: int| 0 <= k < r@.len() ==> (#[trigger] r@[k])@ == pieces(cs@.take(i as int))[k],
        decreases cs.len() - i,
    {
        let c = cs[i];
        let ghost t = cs@.take(i + 1);
        assert(t.drop_last() =~= cs@.take(i as int));
        assert(t.last() == c);
        if c == '/' {
            r.push(Vec::new());
            assert forall|k: int| 0 <= k < r@.len() implies (#[trigger] r@[k])@ == pieces(t)[k] by {
                if k < r@.len() - 1 {
                } else {
                    assert(r@[k]@ =~= Seq::<char>::empty());
                }
            }
        } else {
            let last = r.len() - 1;
            let ghost before = r@;
            r[last].push(c);
            assert forall|k: int| 0 <= k < r@.len() implies (#[trigger] r@[k])@ == pieces(t)[k] by {
                if k < last {
                    assert(r@[k] == before[k]);
                }
            }
        }
        i = i + 1;
    }
    assert(cs@.take(cs@.len() as int) =~= cs@);
    r
}

fn is_dot(v: &Vec<char>) -> (b: bool)
    ensures
        b == (v@ == seq!['.']),
{
    if v.len() == 1 && v[0] == '.' {
        assert(v@ =~= seq!['.']);
        true
    } else {
        false
    }
}

fn is_dot_dot(v: &Vec<char>) -> (b: bool)
    ensures
        b == (v@ == seq!['.', '.']),
{
    if v.len() == 2 && v[0] == '.' && v[1] == '.' {
        assert(v@ =~= seq!['.', '.']);
        true
    } else {
        false
    }
}

/// The file name of a path, as characters.
pub fn file_name_chars(p: &str) -> (r: Option<Vec<char>>)
    ensures
        match file_name(p@) {
            Some(n) => r matches Some(v) && v@ == n,
            None => r is None,
        },
{
    let ps = split_path(p);
    let ghost pred = |x: Seq<char>| named(x);
    let mut last: Option<usize> = None;
    let mut count: usize = 0;
    let mut i: usize = 0;
    while i < ps.len()
        invariant
            0 <= i <= ps.len(),
            ps@.len() == pieces(p@).len(),
            forall|k: int| 0 <= k < ps@.len() ==> (#[trigger] ps@[k])@ == pieces(p@)[k],
            pred == (|x: Seq<char>| named(x)),
            count == pieces(p@).take(i as int).filter(pred).len(),
            count == 0 <==> last is None,
            last matches Some(k) ==> k < i && ps@[k as int]@ == pieces(p@).take(i as int).filter(pred).last(),
        decreases ps.len() - i,
    {
        proof {
            lemma_filter_take_step(pieces(p@), pred, i as int);
        }
        if ps[i].len() > 0 && !is_dot(&ps[i]) {
            last = Some(i);
            count = count + 1;
        }
        i = i + 1;
    }
    assert(pieces(p@).take(pieces(p@).len() as int) =~= pieces(p@));
    match last {
        None => None,
        Some(k) => {
            if is_dot_dot(&ps[k]) {
                None
            } else {
                let v = take_chars(&ps[k], 0, ps[k].len());
                assert(v@ =~= ps@[k as int]@);
                Some(v)
            }
        },
    }
}

/// Where the last `.` after the first character of `name` is.
fn find_last_dot(name: &Vec<char>) -> (r: Option<usize>)
    ensures
        r matches Some(k) ==> 0 < k < name@.len() && last_dot(name@) == Some(k as int),
        r is None ==> last_dot(name@) is None,
{
    let mut i: usize = name.len();
    while i > 1
        invariant
            0 <= i <= name@.len(),
            forall|j: int| i <= j < name@.len() ==> name@[j] != '.',
        decreases i,
    {
        if name[i - 1] == '.' {
            let k = i - 1;
            proof {
                let c = choose|c: int|
                    0 < c < name@.len() && name@[c] == '.' && forall|j: int| c < j < name@.len() ==> name@[j] != '.';
                assert(c == k) by {
                    if c < k {
                        assert(name@[k as int] == '.');
                    }
                    if c > k {
                        assert(name@[c] != '.');
                    }
                }
            }
            return Some(k);
        }
        i = i - 1;
    }
    None
}

fn take_chars(v: &Vec<char>, from: usize, to: usize) -> (r: Vec<char>)
    requires
        from <= to <= v@.len(),
    ensures
        r@ == v@.subrange(from as int, to as int),
{
    let mut r: Vec<char> = Vec::new();
    let mut k: usize = from;
    while k < to
        invariant
            from <= k <= to <= v@.len(),
            r@ == v@.subrange(from as int, k as int),
        decreases to - k,
    {
        r.push(v[k]);
        assert(v@.subrange(from as int, k + 1) =~= v@.subrange(from as int, k as int).push(v@[k as int]));
        k = k + 1;
    }
    r
}

/// The stem of the path's file name.
pub fn stem_chars(p: &str) -> (r: Option<Vec<char>>)
    ensures
        match file_stem(p@) {
            Some(n) => r matches Some(v) && v@ == n,
            None => r is None,
        },
{
    match file_name_chars(p) {
        None => None,
        Some(name) => match find_last_dot(&name) {
            Some(i) => {
                let r = take_chars(&name, 0, i);
                assert(r@ =~= name@.take(i as int));
                Some(r)
            },
            None => Some(name),
        },
    }
}

/// The extension of the path's file name.
pub fn extension_chars(p: &str) -> (r: Option<Vec<char>>)
    ensures
        match extension(p@) {
            Some(n) => r matches Some(v) && v@ == n,
            None => r is None,
        },
{
    match file_name_chars(p) {
        None => None,
        Some(name) => match find_last_dot(&name) {
            Some(i) => {
                let r = take_chars(&name, i + 1, name.len());
                assert(r@ =~= name@.skip(i + 1));
                Some(r)
            },
            None => None,
        },
    }
}

} // verus!

verus! {

/// A component in `Path`'s order: the root, then `.`, then `..`, then names
/// by their bytes.
pub open spec fn component_key(x: Seq<char>) -> KeyPart {
    if x == seq!['.', '.'] {
        KeyPart::Asc(KeyValue::Int(2))
    } else {
        KeyPart::Asc(KeyValue::Text(x))
    }
}

pub open spec fn named_keys(ps: Seq<Seq<char>>) -> Seq<KeyPart> {
    ps.filter(|x: Seq<char>| named(x)).map_values(|x: Seq<char>| component_key(x))
}

/// The components of a Unix path (`Path::components`), as a sort key: the
/// root for a leading `/`, `.` only where a relative path starts with it,
/// then each named piece; empty pieces and later `.` pieces drop out.
pub open spec fn path_key(p: Seq<char>) -> Seq<KeyPart> {
    let ps = pieces(p);
    if p.len() > 0 && p[0] == '/' {
        seq![KeyPart::Asc(KeyValue::Int(0))] + named_keys(ps.skip(1))
    } else if ps[0] == seq!['.'] {
        seq![KeyPart::Asc(KeyValue::Int(1))] + named_keys(ps.skip(1))
    } else {
        named_keys(ps)
    }
}

fn component_part(x: &Vec<char>) -> (r: Part)
    ensures
        r@ == component_key(x@),
{
    if is_dot_dot(x) {
        Part::Asc(Value::Int(2))
    } else {
        let mut v: Vec<char> = Vec::new();
        let mut k: usize = 0;
        while k < x.len()
            invariant
                0 <= k <= x@.len(),
                v@ == x@.take(k as int),
            decreases x@.len() - k,
        {
            v.push(x[k]);
            assert(x@.take(k + 1) =~= x@.take(k as int).push(x@[k as int]));
            k = k + 1;
        }
        assert(x@.take(x@.len() as int) =~= x@);
        Part::Asc(Value::Text(v))
    }
}

/// The sort key of a path.
pub fn path_key_of(p: &str) -> (r: Vec<Part>)
    ensures
        key_view(r) == path_key(p@),
{
    let ps = split_path(p);
    let cs = chars_of(p);
    proof {
        lemma_pieces_nonempty(p@);
    }
    let ghost all = pieces(p@);
    let mut r: Vec<Part> = Vec::new();
    let mut start: usize = 0;
    if cs.len() > 0 && cs[0] == '/' {
        r.push(Part::Asc(Value::Int(0)));
        start = 1;
    } else if is_dot(&ps[0]) {
        r.push(Part::Asc(Value::Int(1)));
        start = 1;
    }
    let ghost head = key_view(r);
    let ghost rest = all.skip(start as int);
    let ghost pred = |x: Seq<char>| named(x);
    let mut i: usize = start;
    while i < ps.len()
        invariant
            start <= i <= ps@.len(),
            ps@.len() == all.len(),
            forall|k: int| 0 <= k < ps@.len() ==> (#[trigger] ps@[k])@ == all[k],
            rest == all.skip(start as int),
            pred == (|x: Seq<char>| named(x)),
            key_view(r) == head + rest.take(i - start).filter(pred).map_values(
                |x: Seq<char>| component_key(x),
            ),
        decreases ps@.len() - i,
    {
        proof {
            lemma_filter_take_step(rest, pred, i - start);
            assert(rest[i - start] == all[i as int]);
        }
        if ps[i].len() > 0 && !is_dot(&ps[i]) {
            let c = component_part(&ps[i]);
            let ghost before = key_view(r);
            r.push(c);
            assert(key_view(r) =~= before.push(c@));
            assert(rest.take(i + 1 - start).filter(pred).map_values(|x: Seq<char>| component_key(x))
                =~= rest.take(i - start).filter(pred).map_values(|x: Seq<char>| component_key(x)).push(
                component_key(all[i as int]),
            ));
        }
        i = i + 1;
    }
    assert(rest.take(ps@.len() - start) =~= rest);
    assert(start == 0 ==> rest =~= all);
    r
}

} // verus!
