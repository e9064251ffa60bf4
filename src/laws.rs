//! Properties of conversion that hold for every input.

use vstd::prelude::*;
use crate::config::{Config, ignored_names};
use crate::convert::{converted_value, aggregate, attribute_entries, convert_spec, document_spec, text_of};
use crate::json::{Entries, Json, has_key, key_index, lemma_key_index, put, put_all};
use crate::plural::looks_singular;
use crate::xml::{XmlElement, XmlNode, text_index};

verus! {

/// An element with no attributes whose one child is a text node converts to
/// that text, whatever the configuration.
pub proof fn leaf_collapse(e: XmlElement, cfg: Config)
    requires
        e.attributes@.len() == 0,
        e.children@.len() == 1,
        e.children@[0] is Text,
    ensures
        convert_spec(XmlNode::Element(e), cfg) == Some((e.name@, Json::Str(text_of(e.children@[0])))),
{
    reveal_with_fuel(text_index, 2);
}

proof fn lemma_put_keys(m: Entries, k: Seq<char>, v: Json)
    ensures
        forall|i: int|
            0 <= i < put(m, k, v).len() ==> (#[trigger] put(m, k, v)[i]).0 == k || has_key(
                m,
                put(m, k, v)[i].0,
            ),
{
    lemma_key_index(m, k);
    let r = put(m, k, v);
    assert forall|i: int| 0 <= i < r.len() implies (#[trigger] r[i]).0 == k || has_key(m, r[i].0) by {
        if r[i].0 != k {
            assert(m[i].0 == r[i].0);
        }
    }
}

/// No key that the attributes give is an ignored name.
pub proof fn ignored_attributes_absent(attrs: Seq<(String, String)>, ignored: Seq<Seq<char>>)
    ensures
        forall|i: int|
            0 <= i < attribute_entries(attrs, ignored).len() ==> !ignored.contains(
                (#[trigger] attribute_entries(attrs, ignored)[i]).0,
            ),
    decreases attrs.len(),
{
    if attrs.len() > 0 {
        let m = attribute_entries(attrs.drop_last(), ignored);
        ignored_attributes_absent(attrs.drop_last(), ignored);
        let a = attrs.last();
        if !ignored.contains(a.0@) {
            lemma_put_keys(m, a.0@, Json::Str(a.1@));
        }
    }
}

/// An element without children converts to the object of its attributes, in
/// which no ignored attribute appears, whatever its value.
pub proof fn ignored_attributes_never_output(e: XmlElement, cfg: Config)
    requires
        e.children@.len() == 0,
    ensures
        convert_spec(XmlNode::Element(e), cfg) == Some(
            (e.name@, Json::Object(attribute_entries(e.attributes@, ignored_names(cfg)))),
        ),
        forall|i: int|
            0 <= i < attribute_entries(e.attributes@, ignored_names(cfg)).len() ==> !ignored_names(
                cfg,
            ).contains((#[trigger] attribute_entries(e.attributes@, ignored_names(cfg))[i]).0),
{
    ignored_attributes_absent(e.attributes@, ignored_names(cfg));
}

proof fn lemma_put_all_keys(m: Entries, extra: Entries)
    ensures
        forall|i: int|
            0 <= i < put_all(m, extra).len() ==> has_key(m, (#[trigger] put_all(m, extra)[i]).0)
                || has_key(extra, put_all(m, extra)[i].0),
    decreases extra.len(),
{
    let r = put_all(m, extra);
    if extra.len() > 0 {
        let prev = put_all(m, extra.drop_last());
        let e = extra.last();
        lemma_put_all_keys(m, extra.drop_last());
        lemma_put_keys(prev, e.0, e.1);
        assert forall|i: int| 0 <= i < r.len() implies has_key(m, (#[trigger] r[i]).0) || has_key(
            extra,
            r[i].0,
        ) by {
            if r[i].0 == e.0 {
                assert(extra[extra.len() - 1].0 == r[i].0);
            } else if has_key(extra.drop_last(), r[i].0) {
                let k = choose|k: int|
                    0 <= k < extra.len() - 1 && extra.drop_last()[k].0 == r[i].0;
                assert(extra[k].0 == r[i].0);
            }
        }
    } else {
        assert forall|i: int| 0 <= i < r.len() implies has_key(m, (#[trigger] r[i]).0) by {
            assert(m[i].0 == r[i].0);
        }
    }
}

/// In the object that any element converts to, a key that is an ignored name
/// comes from a child element: an ignored attribute never appears, whatever
/// its value.
pub proof fn ignored_attributes_never_in_object(e: XmlElement, cfg: Config)
    requires
        !(e.attributes@.len() == 0 && text_index(e.children@) >= 0),
    ensures
        convert_spec(XmlNode::Element(e), cfg) == Some(
            (
                e.name@,
                Json::Object(
                    put_all(
                        attribute_entries(e.attributes@, ignored_names(cfg)),
                        aggregate(e.name@, e.children@, cfg),
                    ),
                ),
            ),
        ),
        forall|i: int|
            0 <= i < put_all(
                attribute_entries(e.attributes@, ignored_names(cfg)),
                aggregate(e.name@, e.children@, cfg),
            ).len() && ignored_names(cfg).contains(
                (#[trigger] put_all(
                    attribute_entries(e.attributes@, ignored_names(cfg)),
                    aggregate(e.name@, e.children@, cfg),
                )[i]).0,
            ) ==> has_key(
                aggregate(e.name@, e.children@, cfg),
                put_all(
                    attribute_entries(e.attributes@, ignored_names(cfg)),
                    aggregate(e.name@, e.children@, cfg),
                )[i].0,
            ),
{
    let attrs = attribute_entries(e.attributes@, ignored_names(cfg));
    let kids = aggregate(e.name@, e.children@, cfg);
    ignored_attributes_absent(e.attributes@, ignored_names(cfg));
    lemma_put_all_keys(attrs, kids);
    let r = put_all(attrs, kids);
    assert forall|i: int| 0 <= i < r.len() && ignored_names(cfg).contains((#[trigger] r[i]).0) implies has_key(
        kids,
        r[i].0,
    ) by {
        if has_key(attrs, r[i].0) {
            let j = choose|j: int| 0 <= j < attrs.len() && attrs[j].0 == r[i].0;
            assert(!ignored_names(cfg).contains(attrs[j].0));
        }
    }
}

/// The entries that the attributes give do not depend on the order in which
/// the ignored names are listed.
pub proof fn ignore_order_irrelevant(
    attrs: Seq<(String, String)>,
    ignored1: Seq<Seq<char>>,
    ignored2: Seq<Seq<char>>,
)
    requires
        ignored1.to_set() == ignored2.to_set(),
    ensures
        attribute_entries(attrs, ignored1) == attribute_entries(attrs, ignored2),
    decreases attrs.len(),
{
    if attrs.len() > 0 {
        ignore_order_irrelevant(attrs.drop_last(), ignored1, ignored2);
        let n = attrs.last().0@;
        assert(ignored1.to_set().contains(n) == ignored1.contains(n));
        assert(ignored2.to_set().contains(n) == ignored2.contains(n));
    }
}

/// Two children of the same name always give a list of both values, whatever
/// the configuration.
pub proof fn repeated_children_form_list(parent: XmlElement, cfg: Config)
    requires
        parent.attributes@.len() == 0,
        parent.children@.len() == 2,
        parent.children@[0] is Element,
        parent.children@[1] is Element,
        parent.children@[0]->Element_0.name@ == parent.children@[1]->Element_0.name@,
    ensures
        convert_spec(XmlNode::Element(parent), cfg) == Some(
            (
                parent.name@,
                Json::Object(
                    seq![
                        (
                            parent.children@[0]->Element_0.name@,
                            Json::Array(
                                seq![
                                    converted_value(parent.children@[0], cfg),
                                    converted_value(parent.children@[1], cfg),
                                ],
                            ),
                        ),
                    ],
                ),
            ),
        ),
{
    let kids = parent.children@;
    let k = kids[0]->Element_0.name@;
    let v0 = converted_value(kids[0], cfg);
    let v1 = converted_value(kids[1], cfg);
    reveal_with_fuel(text_index, 3);
    assert(kids.drop_last().drop_last() =~= Seq::<XmlNode>::empty());
    assert(text_index(kids) == -1);
    let first = aggregate(parent.name@, kids.drop_last(), cfg);
    assert(convert_spec(kids[0], cfg) == Some((k, v0)));
    assert(convert_spec(kids[1], cfg) == Some((k, v1)));
    assert(aggregate(parent.name@, kids.drop_last().drop_last(), cfg) =~= Seq::empty());
    assert(kids.drop_last().last() == kids[0]);
    let c0 = looks_singular(cfg.list_detection, parent.name@, k);
    assert(first == crate::convert::aggregate_step(Seq::empty(), k, v0, c0));
    assert(!(v0 is Array));
    assert(first.len() == 1 && first[0].0 == k);
    reveal_with_fuel(key_index, 2);
    assert(key_index(first, k) == 0);
    let arr = Json::Array(seq![v0, v1]);
    let both = aggregate(parent.name@, kids, cfg);
    assert(kids.last() == kids[1]);
    assert(both == crate::convert::aggregate_step(first, k, v1, c0));
    if c0 {
        assert(first[0].1 == Json::Array(seq![v0]));
        assert(seq![v0].push(v1) =~= seq![v0, v1]);
    } else {
        assert(first[0].1 == v0);
    }
    assert(both =~= seq![(k, arr)]);
    reveal_with_fuel(put_all, 2);
    assert(put_all(Seq::empty(), both) =~= seq![(k, arr)]);
    assert(attribute_entries(parent.attributes@, ignored_names(cfg)) =~= Seq::empty());
}

/// A sole child element is stored as a list of one exactly where its name
/// looks like the singular of the parent's under the configured rule, and as
/// its own value otherwise.
pub proof fn sole_child_list_detection(parent: XmlElement, cfg: Config)
    requires
        parent.attributes@.len() == 0,
        parent.children@.len() == 1,
        parent.children@[0] is Element,
    ensures
        convert_spec(XmlNode::Element(parent), cfg) == Some(
            (
                parent.name@,
                Json::Object(
                    seq![
                        (
                            parent.children@[0]->Element_0.name@,
                            if looks_singular(
                                cfg.list_detection,
                                parent.name@,
                                parent.children@[0]->Element_0.name@,
                            ) {
                                Json::Array(seq![converted_value(parent.children@[0], cfg)])
                            } else {
                                converted_value(parent.children@[0], cfg)
                            },
                        ),
                    ],
                ),
            ),
        ),
{
    let kids = parent.children@;
    let k = kids[0]->Element_0.name@;
    let v0 = converted_value(kids[0], cfg);
    reveal_with_fuel(text_index, 2);
    assert(kids.drop_last() =~= Seq::<XmlNode>::empty());
    assert(text_index(kids) == -1);
    assert(convert_spec(kids[0], cfg) == Some((k, v0)));
    assert(aggregate(parent.name@, kids.drop_last(), cfg) =~= Seq::empty());
    assert(kids.last() == kids[0]);
    let c = looks_singular(cfg.list_detection, parent.name@, k);
    let one = aggregate(parent.name@, kids, cfg);
    assert(one == crate::convert::aggregate_step(Seq::empty(), k, v0, c));
    assert(one.len() == 1 && one[0].0 == k);
    reveal_with_fuel(put_all, 2);
    assert(put_all(Seq::empty(), one) =~= one);
    assert(attribute_entries(parent.attributes@, ignored_names(cfg)) =~= Seq::empty());
}

/// Two configurations that ignore the same set of attribute names, listed in
/// any order, and detect lists alike convert every node alike.
pub proof fn conversion_ignores_list_order(n: XmlNode, cfg1: Config, cfg2: Config)
    requires
        ignored_names(cfg1).to_set() == ignored_names(cfg2).to_set(),
        cfg1.list_detection == cfg2.list_detection,
    ensures
        convert_spec(n, cfg1) == convert_spec(n, cfg2),
    decreases n, 0int,
{
    if let XmlNode::Element(e) = n {
        ignore_order_irrelevant(e.attributes@, ignored_names(cfg1), ignored_names(cfg2));
        aggregation_ignores_list_order(e.name@, e.children@, cfg1, cfg2);
    }
}

proof fn aggregation_ignores_list_order(
    parent: Seq<char>,
    kids: Seq<XmlNode>,
    cfg1: Config,
    cfg2: Config,
)
    requires
        ignored_names(cfg1).to_set() == ignored_names(cfg2).to_set(),
        cfg1.list_detection == cfg2.list_detection,
    ensures
        aggregate(parent, kids, cfg1) == aggregate(parent, kids, cfg2),
    decreases kids, 0int,
{
    if kids.len() > 0 {
        aggregation_ignores_list_order(parent, kids.drop_last(), cfg1, cfg2);
        conversion_ignores_list_order(kids.last(), cfg1, cfg2);
    }
}

/// Converting a document always gives an object whose one key is the root's name.
pub proof fn root_wrapping(root: XmlElement, cfg: Config)
    ensures
        document_spec(root, cfg) is Object,
        document_spec(root, cfg)->Object_0.len() == 1,
        document_spec(root, cfg)->Object_0[0].0 == root.name@,
{
}

} // verus!
