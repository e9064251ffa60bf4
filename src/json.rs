//! The JSON value tree that conversion produces, its mathematical model, and
//! insertion-ordered objects with unique keys.

use vstd::prelude::*;

verus! {

/// A JSON value. Every scalar this library produces is a string.
#[derive(Debug, PartialEq)]
pub enum JsonValue {
    Null,
    Str(String),
    Object(Vec<(String, JsonValue)>),
    Array(Vec<JsonValue>),
}

/// The mathematical model of a [`JsonValue`].
pub enum Json {
    Null,
    Str(Seq<char>),
    Object(Seq<(Seq<char>, Json)>),
    Array(Seq<Json>),
}

/// The model of an object's entries, in order.
pub type Entries = Seq<(Seq<char>, Json)>;

pub open spec fn json_of(v: JsonValue) -> Json
    decreases v, 0int,
{
    match v {
        JsonValue::Null => Json::Null,
        JsonValue::Str(s) => Json::Str(s@),
        JsonValue::Object(m) => Json::Object(entries_of(m@)),
        JsonValue::Array(a) => Json::Array(values_of(a@)),
    }
}

pub open spec fn entries_of(s: Seq<(String, JsonValue)>) -> Entries
    decreases s, 0int,
{
    if s.len() == 0 {
        Seq::empty()
    } else {
        entries_of(s.drop_last()).push((s.last().0@, json_of(s.last().1)))
    }
}

pub open spec fn values_of(s: Seq<JsonValue>) -> Seq<Json>
    decreases s, 0int,
{
    if s.len() == 0 {
        Seq::empty()
    } else {
        values_of(s.drop_last()).push(json_of(s.last()))
    }
}

impl View for JsonValue {
    type V = Json;

    open spec fn view(&self) -> Json {
        json_of(*self)
    }
}

pub proof fn lemma_entries_of(s: Seq<(String, JsonValue)>)
    ensures
        entries_of(s).len() == s.len(),
        forall|i: int|
            0 <= i < s.len() ==> #[trigger] entries_of(s)[i] == (s[i].0@, json_of(s[i].1)),
    decreases s.len(),
{
    if s.len() > 0 {
        lemma_entries_of(s.drop_last());
    }
}

pub proof fn lemma_values_of(s: Seq<JsonValue>)
    ensures
        values_of(s).len() == s.len(),
        forall|i: int| 0 <= i < s.len() ==> #[trigger] values_of(s)[i] == json_of(s[i]),
    decreases s.len(),
{
    if s.len() > 0 {
        lemma_values_of(s.drop_last());
    }
}

/// The position of the first entry of `m` with key `k`, or -1 where none has it.
pub open spec fn key_index(m: Entries, k: Seq<char>) -> int
    decreases m.len(),
{
    if m.len() == 0 {
        -1
    } else {
        let i = key_index(m.drop_last(), k);
        if i >= 0 {
            i
        } else if m.last().0 == k {
            m.len() - 1
        } else {
            -1
        }
    }
}

/// Some entry of `m` has the key `k`.
pub open spec fn has_key(m: Entries, k: Seq<char>) -> bool {
    exists|j: int| 0 <= j < m.len() && m[j].0 == k
}

/// `m` with `k` bound to `v`: an existing entry keeps its place and takes the
/// new value, a new key goes last.
pub open spec fn put(m: Entries, k: Seq<char>, v: Json) -> Entries {
    let i = key_index(m, k);
    if i < 0 {
        m.push((k, v))
    } else {
        m.update(i, (k, v))
    }
}

pub proof fn lemma_key_index(m: Entries, k: Seq<char>)
    ensures
        -1 <= key_index(m, k) < m.len(),
        key_index(m, k) >= 0 ==> m[key_index(m, k)].0 == k,
        forall|j: int| 0 <= j < m.len() && m[j].0 == k ==> key_index(m, k) >= 0 && key_index(m, k) <= j,
    decreases m.len(),
{
    if m.len() > 0 {
        lemma_key_index(m.drop_last(), k);
        assert forall|j: int| 0 <= j < m.len() - 1 implies #[trigger] m[j] == m.drop_last()[j] by {}
    }
}

/// Finds the position of the entry with key `k`.
pub fn find_key(m: &Vec<(String, JsonValue)>, k: &String) -> (r: Option<usize>)
    ensures
        match r {
            Some(i) => i < m.len() && key_index(entries_of(m@), k@) == i as int,
            None => key_index(entries_of(m@), k@) == -1,
        },
{
    let mut i: usize = 0;
    while i < m.len()
        invariant
            i <= m.len(),
            forall|j: int| 0 <= j < i ==> (#[trigger] m@[j]).0@ != k@,
        decreases m.len() - i,
    {
        if m[i].0 == *k {
            proof {
                lemma_entries_of(m@);
                lemma_key_index(entries_of(m@), k@);
                assert(entries_of(m@)[i as int].0 == k@);
            }
            return Some(i);
        }
        i = i + 1;
    }
    proof {
        lemma_entries_of(m@);
        lemma_key_index(entries_of(m@), k@);
        if key_index(entries_of(m@), k@) >= 0 {
            assert(m@[key_index(entries_of(m@), k@)].0@ == k@);
        }
    }
    None
}

/// Binds `k` to `v` in `m`, as [`put`] says.
pub fn put_entry(m: &mut Vec<(String, JsonValue)>, k: String, v: JsonValue)
    ensures
        entries_of(final(m)@) == put(entries_of(old(m)@), k@, json_of(v)),
{
    let ghost kv = k@;
    let ghost jv = json_of(v);
    match find_key(m, &k) {
        Some(i) => {
            replace_entry(m, i, k, v);
        },
        None => {
            m.push((k, v));
            proof {
                lemma_entries_of(old(m)@);
                lemma_entries_of(m@);
                assert(entries_of(m@) =~= entries_of(old(m)@).push((kv, jv)));
            }
        },
    }
}

/// Replaces the entry at `i`, keeping its place.
pub fn replace_entry(m: &mut Vec<(String, JsonValue)>, i: usize, k: String, v: JsonValue)
    requires
        i < old(m).len(),
    ensures
        final(m)@.len() == old(m)@.len(),
        entries_of(final(m)@) == entries_of(old(m)@).update(i as int, (k@, json_of(v))),
{
    let ghost kv = k@;
    let ghost jv = json_of(v);
    m.remove(i);
    m.insert(i, (k, v));
    proof {
        lemma_entries_of(old(m)@);
        lemma_entries_of(m@);
        assert(entries_of(m@) =~= entries_of(old(m)@).update(i as int, (kv, jv)));
    }
}

/// `m` with each entry of `extra` bound in turn, as [`put`] does.
pub open spec fn put_all(m: Entries, extra: Entries) -> Entries
    decreases extra.len(),
{
    if extra.len() == 0 {
        m
    } else {
        put(put_all(m, extra.drop_last()), extra.last().0, extra.last().1)
    }
}

/// Binds each entry of `extra` in `m`, in order.
pub fn put_entries(m: &mut Vec<(String, JsonValue)>, extra: Vec<(String, JsonValue)>)
    ensures
        entries_of(final(m)@) == put_all(entries_of(old(m)@), entries_of(extra@)),
{
    let ghost all = entries_of(extra@);
    let ghost base = entries_of(m@);
    proof {
        lemma_entries_of(extra@);
    }
    let mut rest = extra;
    let ghost n: int = rest@.len() as int;
    while rest.len() > 0
        invariant
            rest@.len() <= n,
            all.len() == n,
            forall|j: int| 0 <= j < rest@.len() ==> all[n - rest@.len() + j] == (
                #[trigger] rest@[j].0@, json_of(rest@[j].1)),
            entries_of(m@) == put_all(base, all.subrange(0, n - rest@.len())),
        decreases rest.len(),
    {
        let ghost done = n - rest@.len();
        let ghost before = rest@;
        let (k, v) = rest.remove(0);
        proof {
            assert(all[done] == (k@, json_of(v)));
            assert(all.subrange(0, done + 1).drop_last() =~= all.subrange(0, done));
            assert forall|j: int| 0 <= j < rest@.len() implies all[n - rest@.len() + j] == (
                #[trigger] rest@[j].0@, json_of(rest@[j].1)) by {
                assert(rest@[j] == before[j + 1]);
            }
        }
        put_entry(m, k, v);
    }
    proof {
        assert(all.subrange(0, n) =~= all);
    }
}

} // verus!
