use xml_to_json::{
    convert_children, convert_node, get_args, is_ignored, looks_singular_of, parse_xml,
    stems_match, suffix_strip_matches, Config, JsonValue, ListDetection, XmlElement, XmlNode,
};

fn s(v: &str) -> String {
    v.to_string()
}

fn elem(name: &str, attributes: Vec<(&str, &str)>, children: Vec<XmlNode>) -> XmlElement {
    XmlElement {
        name: s(name),
        attributes: attributes.into_iter().map(|(k, v)| (s(k), s(v))).collect(),
        children,
    }
}

fn node(name: &str, attributes: Vec<(&str, &str)>, children: Vec<XmlNode>) -> XmlNode {
    XmlNode::Element(elem(name, attributes, children))
}

fn text(t: &str) -> XmlNode {
    XmlNode::Text(s(t))
}

fn jstr(t: &str) -> JsonValue {
    JsonValue::Str(s(t))
}

fn obj(entries: Vec<(&str, JsonValue)>) -> JsonValue {
    JsonValue::Object(entries.into_iter().map(|(k, v)| (s(k), v)).collect())
}

fn config(ignored: Vec<&str>, list_detection: ListDetection) -> Config {
    Config { ignore_attributes: ignored.into_iter().map(s).collect(), list_detection }
}

fn all_strategies() -> Vec<ListDetection> {
    vec![ListDetection::Disabled, ListDetection::StemEquality, ListDetection::SuffixStrip]
}

#[test]
fn leaf_element_collapses_to_its_text() {
    for strategy in all_strategies() {
        let cfg = config(vec![], strategy);
        let r = convert_node(&node("title", vec![], vec![text("hello")]), &cfg);
        assert_eq!(r, Some((s("title"), jstr("hello"))));
    }
}

#[test]
fn first_text_child_wins_and_others_are_dropped() {
    let cfg = Config::default();
    let n = node(
        "a",
        vec![],
        vec![node("b", vec![], vec![]), text("first"), XmlNode::Other, text("second")],
    );
    assert_eq!(convert_node(&n, &cfg), Some((s("a"), jstr("first"))));
}

#[test]
fn text_with_attributes_is_not_collapsed() {
    let cfg = Config::default();
    let n = node("a", vec![("id", "7")], vec![text("t")]);
    assert_eq!(
        convert_node(&n, &cfg),
        Some((s("a"), obj(vec![("id", jstr("7")), ("value", jstr("t"))])))
    );
}

#[test]
fn attributes_and_children_merge() {
    let cfg = Config::default();
    let n = node("e", vec![("a", "1")], vec![node("b", vec![], vec![text("x")])]);
    assert_eq!(
        convert_node(&n, &cfg),
        Some((s("e"), obj(vec![("a", jstr("1")), ("b", jstr("x"))])))
    );
}

#[test]
fn child_overrides_attribute_of_same_name() {
    let cfg = Config::default();
    let n = node("e", vec![("b", "attr")], vec![node("b", vec![], vec![text("child")])]);
    assert_eq!(convert_node(&n, &cfg), Some((s("e"), obj(vec![("b", jstr("child"))]))));
}

#[test]
fn ignored_attribute_never_appears() {
    let cfg = config(vec!["schemaLocation"], ListDetection::Disabled);
    let n = node("e", vec![("schemaLocation", "http://x"), ("id", "1")], vec![]);
    assert_eq!(convert_node(&n, &cfg), Some((s("e"), obj(vec![("id", jstr("1"))]))));
    let only = node("e", vec![("schemaLocation", "anything")], vec![]);
    assert_eq!(convert_node(&only, &cfg), Some((s("e"), obj(vec![]))));
}

#[test]
fn ignore_list_order_does_not_matter() {
    let n1 = node("e", vec![("a", "1"), ("b", "2"), ("c", "3")], vec![]);
    let n2 = node("e", vec![("a", "1"), ("b", "2"), ("c", "3")], vec![]);
    let c1 = config(vec!["a", "c"], ListDetection::Disabled);
    let c2 = config(vec!["c", "a"], ListDetection::Disabled);
    let r1 = convert_node(&n1, &c1);
    assert_eq!(r1, convert_node(&n2, &c2));
    assert_eq!(r1, Some((s("e"), obj(vec![("b", jstr("2"))]))));
}

#[test]
fn is_ignored_is_membership() {
    let cfg = config(vec!["schemaLocation", "x"], ListDetection::Disabled);
    assert!(is_ignored(&s("schemaLocation"), &cfg));
    assert!(is_ignored(&s("x"), &cfg));
    assert!(!is_ignored(&s("schemalocation"), &cfg));
    assert!(!is_ignored(&s("y"), &Config::default()));
}

#[test]
fn repeated_children_always_form_array() {
    for strategy in all_strategies() {
        let cfg = config(vec![], strategy);
        let n = node("items", vec![], vec![node("item", vec![], vec![]), node("item", vec![], vec![])]);
        let expected = obj(vec![("item", JsonValue::Array(vec![obj(vec![]), obj(vec![])]))]);
        assert_eq!(convert_node(&n, &cfg), Some((s("items"), expected)));
    }
}

#[test]
fn third_occurrence_appends() {
    let cfg = config(vec![], ListDetection::SuffixStrip);
    let kids = vec![
        node("group", vec![], vec![text("1")]),
        node("group", vec![], vec![text("2")]),
        node("group", vec![], vec![text("3")]),
    ];
    let r = convert_children(&s("groups"), &kids, &cfg);
    assert_eq!(r, vec![(s("group"), JsonValue::Array(vec![jstr("1"), jstr("2"), jstr("3")]))]);
}

#[test]
fn suffix_strip_wraps_sole_child() {
    let cfg = config(vec![], ListDetection::SuffixStrip);
    let root = elem("groups", vec![], vec![node("group", vec![], vec![])]);
    let expected = obj(vec![("groups", obj(vec![("group", JsonValue::Array(vec![obj(vec![])]))]))]);
    assert_eq!(parse_xml(root, &cfg), expected);
}

#[test]
fn disabled_detection_keeps_sole_child_unwrapped() {
    let cfg = config(vec![], ListDetection::Disabled);
    let root = elem("groups", vec![], vec![node("group", vec![], vec![])]);
    let expected = obj(vec![("groups", obj(vec![("group", obj(vec![]))]))]);
    assert_eq!(parse_xml(root, &cfg), expected);
}

#[test]
fn suffix_strip_non_match_keeps_child_unwrapped() {
    let cfg = config(vec![], ListDetection::SuffixStrip);
    let root = elem("config", vec![], vec![node("item", vec![], vec![])]);
    let expected = obj(vec![("config", obj(vec![("item", obj(vec![]))]))]);
    assert_eq!(parse_xml(root, &cfg), expected);
}

#[test]
fn stem_equality_wraps_irregular_plural() {
    let cfg = config(vec![], ListDetection::StemEquality);
    let root = elem("categories", vec![], vec![node("category", vec![], vec![text("c")])]);
    let expected = obj(vec![("categories", obj(vec![("category", JsonValue::Array(vec![jstr("c")]))]))]);
    assert_eq!(parse_xml(root, &cfg), expected);
}

#[test]
fn stem_equality_non_match_keeps_child_unwrapped() {
    let cfg = config(vec![], ListDetection::StemEquality);
    let root = elem("config", vec![], vec![node("item", vec![], vec![text("c")])]);
    let expected = obj(vec![("config", obj(vec![("item", jstr("c"))]))]);
    assert_eq!(parse_xml(root, &cfg), expected);
}

#[test]
fn stems_of_plural_and_singular_match() {
    assert!(stems_match("categories", "category"));
    assert!(stems_match("groups", "group"));
    assert!(!stems_match("config", "item"));
}

#[test]
fn suffix_strip_exact_cases() {
    assert!(suffix_strip_matches("groups", "group"));
    assert!(suffix_strip_matches("class", "clas"));
    assert!(!suffix_strip_matches("address", "addres_"));
    assert!(!suffix_strip_matches("s", ""));
    assert!(!suffix_strip_matches("config", "item"));
    assert!(!suffix_strip_matches("categories", "category"));
    assert!(!suffix_strip_matches("", ""));
}

#[test]
fn disabled_detection_never_matches() {
    assert!(!looks_singular_of(&ListDetection::Disabled, "groups", "group"));
    assert!(looks_singular_of(&ListDetection::SuffixStrip, "groups", "group"));
    assert!(looks_singular_of(&ListDetection::StemEquality, "categories", "category"));
}

#[test]
fn root_is_wrapped_under_its_name() {
    for strategy in all_strategies() {
        let cfg = config(vec![], strategy);
        assert_eq!(parse_xml(elem("doc", vec![], vec![]), &cfg), obj(vec![("doc", obj(vec![]))]));
    }
    let cfg = Config::default();
    assert_eq!(
        parse_xml(elem("doc", vec![], vec![text("body")]), &cfg),
        obj(vec![("doc", jstr("body"))])
    );
}

#[test]
fn text_node_alone_uses_value_key() {
    let cfg = Config::default();
    assert_eq!(convert_node(&text("t"), &cfg), Some((s("value"), jstr("t"))));
    assert_eq!(convert_node(&XmlNode::Other, &cfg), None);
}

#[test]
fn other_nodes_are_skipped_by_aggregation() {
    let cfg = Config::default();
    let kids = vec![XmlNode::Other, node("a", vec![], vec![text("1")]), XmlNode::Other];
    assert_eq!(convert_children(&s("p"), &kids, &cfg), vec![(s("a"), jstr("1"))]);
}

#[test]
fn distinct_keys_keep_document_order() {
    let cfg = Config::default();
    let kids = vec![
        node("z", vec![], vec![text("1")]),
        node("a", vec![], vec![text("2")]),
        node("z", vec![], vec![text("3")]),
        node("m", vec![], vec![text("4")]),
    ];
    assert_eq!(
        convert_children(&s("p"), &kids, &cfg),
        vec![
            (s("z"), JsonValue::Array(vec![jstr("1"), jstr("3")])),
            (s("a"), jstr("2")),
            (s("m"), jstr("4")),
        ]
    );
}

#[test]
fn default_config_ignores_nothing() {
    let cfg = Config::default();
    assert!(cfg.ignore_attributes.is_empty());
    assert_eq!(cfg.list_detection, ListDetection::Disabled);
}

#[test]
fn get_args_keeps_both_directories() {
    let cli = get_args(s("in"), s("out"));
    assert_eq!(cli.input, "in");
    assert_eq!(cli.output, "out");
}
