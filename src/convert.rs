//! The node converter and the sibling aggregator.

use vstd::prelude::*;
use crate::config::{Config, ignored_names, is_ignored};
use crate::json::{
    Entries, Json, JsonValue, entries_of, find_key, json_of, key_index, lemma_entries_of,
    lemma_values_of, put, put_all, put_entries, put_entry, values_of,
};
use crate::plural::{looks_singular, looks_singular_of};
use crate::xml::{XmlElement, XmlNode, first_text, text_index};

verus! {

/// The key under which a text node converted on its own is stored.
pub open spec fn value_key() -> Seq<char> {
    seq!['v', 'a', 'l', 'u', 'e']
}

/// The content of a text node.
pub open spec fn text_of(n: XmlNode) -> Seq<char> {
    match n {
        XmlNode::Text(t) => t@,
        _ => Seq::empty(),
    }
}

/// The entries that the attributes give, in order, after the ignored ones are
/// left out; a repeated name keeps its first place and its last value.
pub open spec fn attribute_entries(attrs: Seq<(String, String)>, ignored: Seq<Seq<char>>) -> Entries
    decreases attrs.len(),
{
    if attrs.len() == 0 {
        Seq::empty()
    } else {
        let m = attribute_entries(attrs.drop_last(), ignored);
        let a = attrs.last();
        if ignored.contains(a.0@) {
            m
        } else {
            put(m, a.0@, Json::Str(a.1@))
        }
    }
}

/// One step of aggregation: a child converted to `(key, value)` joins `m`.
/// A new key holds `value`, or a list of it where `candidate`; a second
/// occurrence turns the stored value into a list of both; later ones append.
pub open spec fn aggregate_step(m: Entries, key: Seq<char>, value: Json, candidate: bool) -> Entries {
    let i = key_index(m, key);
    if i < 0 {
        m.push((key, if candidate { Json::Array(seq![value]) } else { value }))
    } else {
        match m[i].1 {
            Json::Array(items) => m.update(i, (key, Json::Array(items.push(value)))),
            current => m.update(i, (key, Json::Array(seq![current, value]))),
        }
    }
}

/// What a node converts to: its key and value, or nothing for a node that is
/// neither an element nor text.
pub open spec fn convert_spec(n: XmlNode, cfg: Config) -> Option<(Seq<char>, Json)>
    decreases n, 0int,
{
    match n {
        XmlNode::Text(t) => Some((value_key(), Json::Str(t@))),
        XmlNode::Other => None,
        XmlNode::Element(e) => if e.attributes@.len() == 0 && text_index(e.children@) >= 0 {
            Some((e.name@, Json::Str(text_of(e.children@[text_index(e.children@)]))))
        } else {
            Some(
                (
                    e.name@,
                    Json::Object(
                        put_all(
                            attribute_entries(e.attributes@, ignored_names(cfg)),
                            aggregate(e.name@, e.children@, cfg),
                        ),
                    ),
                ),
            )
        },
    }
}

/// The entries that the children `kids` of an element named `parent` give.
pub open spec fn aggregate(parent: Seq<char>, kids: Seq<XmlNode>, cfg: Config) -> Entries
    decreases kids, 0int,
{
    if kids.len() == 0 {
        Seq::empty()
    } else {
        let m = aggregate(parent, kids.drop_last(), cfg);
        match convert_spec(kids.last(), cfg) {
            None => m,
            Some(kv) => aggregate_step(
                m,
                kv.0,
                kv.1,
                looks_singular(cfg.list_detection, parent, kv.0),
            ),
        }
    }
}

/// No entry of `m` holds null.
pub open spec fn no_null(m: Entries) -> bool {
    forall|i: int| 0 <= i < m.len() ==> !((#[trigger] m[i]).1 is Null)
}

/// A converted node is never null.
pub proof fn lemma_convert_not_null(n: XmlNode, cfg: Config)
    ensures
        convert_spec(n, cfg) is Some ==> !(converted_value(n, cfg) is Null),
{
}

/// The entries that aggregation builds never hold null, so a stored value is
/// always a string, an object or a list.
pub proof fn lemma_aggregate_no_null(parent: Seq<char>, kids: Seq<XmlNode>, cfg: Config)
    ensures
        no_null(aggregate(parent, kids, cfg)),
    decreases kids.len(),
{
    if kids.len() > 0 {
        lemma_aggregate_no_null(parent, kids.drop_last(), cfg);
        lemma_convert_not_null(kids.last(), cfg);
        let m = aggregate(parent, kids.drop_last(), cfg);
        if let Some(kv) = convert_spec(kids.last(), cfg) {
            let c = looks_singular(cfg.list_detection, parent, kv.0);
            let r = aggregate_step(m, kv.0, kv.1, c);
            crate::json::lemma_key_index(m, kv.0);
            assert(!(kv.1 is Null));
            assert forall|i: int| 0 <= i < r.len() implies !((#[trigger] r[i]).1 is Null) by {
                if i < m.len() && i != key_index(m, kv.0) {
                    assert(r[i] == m[i]);
                    assert(!(m[i].1 is Null));
                }
            }
        }
    }
}

/// The value that a node converts to, or null where it gives nothing.
pub open spec fn converted_value(n: XmlNode, cfg: Config) -> Json {
    match convert_spec(n, cfg) {
        Some(kv) => kv.1,
        None => Json::Null,
    }
}

/// The document that a root element converts to: an object with the root's
/// name as its one key.
pub open spec fn document_spec(root: XmlElement, cfg: Config) -> Json {
    let kv = convert_spec(XmlNode::Element(root), cfg)->0;
    Json::Object(seq![(kv.0, kv.1)])
}

/// Adds a converted child to the entries of its siblings, as [`aggregate_step`] says.
pub fn merge_child(m: &mut Vec<(String, JsonValue)>, key: String, value: JsonValue, candidate: bool)
    requires
        no_null(entries_of(old(m)@)),
        !(json_of(value) is Null),
    ensures
        entries_of(final(m)@) == aggregate_step(entries_of(old(m)@), key@, json_of(value), candidate),
{
    let ghost kv = key@;
    let ghost jv = json_of(value);
    proof {
        lemma_entries_of(m@);
    }
    match find_key(m, &key) {
        None => {
            let stored = if candidate {
                let v = vec![value];
                proof {
                    lemma_values_of(v@);
                    assert(values_of(v@) =~= seq![jv]);
                }
                JsonValue::Array(v)
            } else {
                value
            };
            m.push((key, stored));
            proof {
                lemma_entries_of(m@);
                assert(entries_of(m@) =~= aggregate_step(entries_of(old(m)@), kv, jv, candidate));
            }
        },
        Some(i) => {
            proof {
                crate::json::lemma_key_index(entries_of(m@), kv);
                assert(entries_of(m@)[i as int] == (m@[i as int].0@, json_of(m@[i as int].1)));
            }
            let (k, current) = m.remove(i);
            let ghost cur = json_of(current);
            let merged = match current {
                JsonValue::Array(mut items) => {
                    let ghost before = items@;
                    items.push(value);
                    proof {
                        assert(items@.drop_last() =~= before);
                    }
                    JsonValue::Array(items)
                },
                JsonValue::Null => {
                    // A stored value is never null: see `lemma_aggregate_no_null`.
                    proof {
                        assert(entries_of(old(m)@)[i as int].1 == cur);
                        assert(false);
                    }
                    JsonValue::Null
                },
                other => {
                    let v = vec![other, value];
                    proof {
                        lemma_values_of(v@);
                        assert(values_of(v@) =~= seq![cur, jv]);
                    }
                    JsonValue::Array(v)
                },
            };
            m.insert(i, (k, merged));
            proof {
                lemma_entries_of(m@);
                assert(entries_of(m@) =~= aggregate_step(entries_of(old(m)@), kv, jv, candidate));
            }
        },
    }
}

/// The object entries that an element's attributes give.
pub fn convert_attributes(attrs: &Vec<(String, String)>, config: &Config) -> (r: Vec<(String, JsonValue)>)
    ensures
        entries_of(r@) == attribute_entries(attrs@, ignored_names(*config)),
{
    let mut m: Vec<(String, JsonValue)> = Vec::new();
    let mut i: usize = 0;
    while i < attrs.len()
        invariant
            i <= attrs.len(),
            entries_of(m@) == attribute_entries(attrs@.subrange(0, i as int), ignored_names(*config)),
        decreases attrs.len() - i,
    {
        let ghost prev = attrs@.subrange(0, i as int);
        let name = &attrs[i].0;
        if !is_ignored(name, config) {
            put_entry(&mut m, name.clone(), JsonValue::Str(attrs[i].1.clone()));
        }
        i = i + 1;
        proof {
            assert(attrs@.subrange(0, i as int).drop_last() =~= prev);
        }
    }
    proof {
        assert(attrs@.subrange(0, attrs@.len() as int) =~= attrs@);
    }
    m
}

/// Converts one node into a key and a value; every attribute and text becomes a string.
pub fn convert_node(node: &XmlNode, config: &Config) -> (r: Option<(String, JsonValue)>)
    ensures
        match r {
            None => convert_spec(*node, *config) is None,
            Some(kv) => convert_spec(*node, *config) == Some((kv.0@, json_of(kv.1))),
        },
    decreases node, 1int,
{
    match node {
        XmlNode::Element(e) => {
            // With no attributes, the first text child is the whole value and
            // the other children are dropped.
            if e.attributes.len() == 0 {
                if let Some(i) = first_text(&e.children) {
                    proof {
                        crate::xml::lemma_text_index(e.children@);
                    }
                    if let XmlNode::Text(t) = &e.children[i] {
                        return Some((e.name.clone(), JsonValue::Str(t.clone())));
                    }
                }
            }
            let mut map = convert_attributes(&e.attributes, config);
            let children = convert_children(&e.name, &e.children, config);
            put_entries(&mut map, children);
            Some((e.name.clone(), JsonValue::Object(map)))
        },
        XmlNode::Text(t) => {
            let key = String::from_str("value");
            proof {
                reveal_strlit("value");
                assert(key@ =~= value_key());
            }
            Some((key, JsonValue::Str(t.clone())))
        },
        XmlNode::Other => None,
    }
}

/// Converts the children of the element named `parent_name` into that
/// element's entries: same-named children become one list, and a sole child
/// becomes a list of one where its name looks like the singular of the parent's.
pub fn convert_children(parent_name: &String, children: &Vec<XmlNode>, config: &Config) -> (r: Vec<
    (String, JsonValue),
>)
    ensures
        entries_of(r@) == aggregate(parent_name@, children@, *config),
    decreases children, 1int,
{
    let mut map: Vec<(String, JsonValue)> = Vec::new();
    let mut i: usize = 0;
    while i < children.len()
        invariant
            i <= children.len(),
            entries_of(map@) == aggregate(parent_name@, children@.subrange(0, i as int), *config),
        decreases children.len() - i,
    {
        let ghost prev = children@.subrange(0, i as int);
        proof {
            lemma_aggregate_no_null(parent_name@, prev, *config);
            lemma_convert_not_null(children@[i as int], *config);
        }
        if let Some((name, value)) = convert_node(&children[i], config) {
            let candidate = looks_singular_of(
                &config.list_detection,
                parent_name.as_str(),
                name.as_str(),
            );
            merge_child(&mut map, name, value, candidate);
        }
        i = i + 1;
        proof {
            assert(children@.subrange(0, i as int).drop_last() =~= prev);
        }
    }
    proof {
        assert(children@.subrange(0, children@.len() as int) =~= children@);
    }
    map
}

/// Converts a document's root element into a JSON object whose one key is
/// the root's name.
pub fn parse_xml(root: XmlElement, config: &Config) -> (r: JsonValue)
    ensures
        r@ == document_spec(root, *config),
{
    let node = XmlNode::Element(root);
    match convert_node(&node, config) {
        Some((name, value)) => {
            let ghost jv = json_of(value);
            let ghost kn = name@;
            let map = vec![(name, value)];
            proof {
                lemma_entries_of(map@);
                assert(entries_of(map@) =~= seq![(kn, jv)]);
            }
            JsonValue::Object(map)
        },
        None => {
            proof {
                assert(false);
            }
            JsonValue::Null
        },
    }
}

} // verus!
