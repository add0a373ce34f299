use boxlayout::css::{Declaration, Rule, Selector, SimpleSelector, Stylesheet, Unit, Value};
use boxlayout::node::{contains_word, elem, text, AttrMap, Node, NodeType};
use boxlayout::style::{style_tree, Display, PropertyMap, StyledNode};
use boxlayout::text::{char_is_digit, hex_digit, same_text, valid_identifier_char};
use boxlayout::units::{from_px, px_add, px_half, px_sub};

fn keyword(word: &str) -> Value {
    Value::Keyword(word.to_string())
}

fn tag_rule(tag: &str, decls: Vec<(&str, Value)>) -> Rule {
    Rule {
        selectors: vec![Selector::Simple(SimpleSelector {
            tag_name: Some(tag.to_string()),
            id: None,
            class: vec![],
        })],
        declarations: decls
            .into_iter()
            .map(|(n, v)| Declaration { name: n.to_string(), value: v })
            .collect(),
    }
}

fn element(tag: &str, children: Vec<Node>) -> Node {
    elem(tag.to_string(), AttrMap::new(), children)
}

fn styled_with<'a>(node: &'a Node, values: Vec<(&str, Value)>) -> StyledNode<'a> {
    let mut map = PropertyMap::new();
    for (k, v) in values {
        map.insert(k.to_string(), v);
    }
    StyledNode { node, specified_values: map, children: vec![] }
}

#[test]
fn styled_tree_mirrors_the_document() {
    let doc = element(
        "div",
        vec![
            element("p", vec![text("one".to_string())]),
            text("two".to_string()),
            element("span", vec![]),
        ],
    );
    let sheet = Stylesheet {
        rules: vec![
            tag_rule("p", vec![("color", keyword("red"))]),
            tag_rule("div", vec![("width", Value::Length(5000, Unit::Px))]),
        ],
    };
    let styled = style_tree(&doc, &sheet);
    assert_eq!(styled.children.len(), 3);
    assert_eq!(styled.specified_values.len(), 1);
    assert!(matches!(styled.value("width"), Some(Value::Length(5000, Unit::Px))));
    let p = &styled.children[0];
    assert!(matches!(p.value("color"), Some(Value::Keyword(k)) if k == "red"));
    // Values are not handed down to children.
    assert!(p.value("width").is_none());
    assert_eq!(p.children.len(), 1);
    assert!(p.children[0].specified_values.is_empty());
    assert!(matches!(&p.children[0].node.node_type, NodeType::Text(t) if t == "one"));
    assert!(styled.children[1].specified_values.is_empty());
    assert!(matches!(&styled.children[1].node.node_type, NodeType::Text(t) if t == "two"));
    assert!(styled.children[2].specified_values.is_empty());
    assert!(matches!(&styled.children[2].node.node_type, NodeType::Element(e) if e.tag_name == "span"));
}

#[test]
fn display_reads_two_keywords() {
    let node = element("p", vec![]);
    assert_eq!(styled_with(&node, vec![]).display(), Display::Block);
    assert_eq!(styled_with(&node, vec![("display", keyword("block"))]).display(), Display::Block);
    assert_eq!(styled_with(&node, vec![("display", keyword("inline"))]).display(), Display::Inline);
    assert_eq!(styled_with(&node, vec![("display", keyword("none"))]).display(), Display::Hidden);
    assert_eq!(styled_with(&node, vec![("display", keyword("flex"))]).display(), Display::Block);
    assert_eq!(styled_with(&node, vec![("display", keyword("None"))]).display(), Display::Block);
    assert_eq!(
        styled_with(&node, vec![("display", Value::Length(0, Unit::Px))]).display(),
        Display::Block
    );
}

#[test]
fn lookup_falls_back_twice() {
    let node = element("p", vec![]);
    let zero = Value::Length(0, Unit::Px);
    let both = styled_with(
        &node,
        vec![("margin-left", Value::Length(1, Unit::Px)), ("margin", Value::Length(2, Unit::Px))],
    );
    assert!(matches!(both.lookup("margin-left", "margin", &zero), Value::Length(1, Unit::Px)));
    assert!(matches!(both.lookup("margin-right", "margin", &zero), Value::Length(2, Unit::Px)));
    assert!(matches!(both.lookup("padding-left", "padding", &zero), Value::Length(0, Unit::Px)));
    assert!(both.value("margin").is_some());
    assert!(both.value("padding").is_none());
}

#[test]
fn value_as_length_and_keyword() {
    assert_eq!(Value::Length(1500, Unit::Px).to_px(), 1500);
    assert_eq!(Value::Length(-3, Unit::Px).to_px(), -3);
    assert_eq!(keyword("auto").to_px(), 0);
    assert!(keyword("auto").is_keyword("auto"));
    assert!(!keyword("auto").is_keyword("aut"));
    assert!(!Value::Length(0, Unit::Px).is_keyword("auto"));
}

#[test]
fn element_id_and_classes() {
    let mut attrs = AttrMap::new();
    attrs.insert("id".to_string(), "top".to_string());
    attrs.insert("class".to_string(), "a  bb\u{a0}c".to_string());
    let node = elem("div".to_string(), attrs, vec![]);
    let e = match &node.node_type {
        NodeType::Element(e) => e,
        NodeType::Text(_) => panic!("text node"),
    };
    assert_eq!(e.tag_name, "div");
    assert_eq!(e.id().map(|s| s.as_str()), Some("top"));
    assert!(e.has_class("a"));
    assert!(e.has_class("bb"));
    assert!(e.has_class("c"));
    assert!(!e.has_class("b"));
    assert!(!e.has_class("a  bb"));
    let bare = element("p", vec![]);
    match &bare.node_type {
        NodeType::Element(e) => {
            assert!(e.id().is_none());
            assert!(!e.has_class("a"));
        }
        NodeType::Text(_) => panic!("text node"),
    }
    let t = text("words".to_string());
    assert_eq!(t.children.len(), 0);
    assert!(matches!(&t.node_type, NodeType::Text(s) if s == "words"));
}

#[test]
fn words_of_a_list() {
    assert!(contains_word("one two", "one"));
    assert!(contains_word("one two", "two"));
    assert!(contains_word("  one\ttwo\n", "two"));
    assert!(!contains_word("one two", "on"));
    assert!(!contains_word("one two", "ne"));
    assert!(!contains_word("one two", "one two"));
    assert!(!contains_word("one two", ""));
    assert!(!contains_word("", ""));
    assert!(!contains_word("   ", "one"));
    assert!(contains_word("one", "one"));
}

#[test]
fn characters_and_text() {
    assert!(char_is_digit('0') && char_is_digit('9'));
    assert!(!char_is_digit('a') && !char_is_digit('/') && !char_is_digit(':'));
    assert_eq!(hex_digit('0'), Some(0));
    assert_eq!(hex_digit('9'), Some(9));
    assert_eq!(hex_digit('a'), Some(10));
    assert_eq!(hex_digit('F'), Some(15));
    assert_eq!(hex_digit('g'), None);
    assert_eq!(hex_digit('+'), None);
    assert!(valid_identifier_char('a') && valid_identifier_char('-') && valid_identifier_char('_'));
    assert!(valid_identifier_char('7') && valid_identifier_char('\u{e9}'));
    assert!(!valid_identifier_char(' ') && !valid_identifier_char('{'));
    assert!(same_text("abc", "abc"));
    assert!(!same_text("abc", "abd"));
    assert!(!same_text("abc", "ab"));
}

#[test]
fn lengths_add_subtract_and_halve() {
    assert_eq!(px_add(2, 3), 5);
    assert_eq!(px_add(i64::MAX, 1), i64::MAX);
    assert_eq!(px_add(i64::MIN, -1), i64::MIN);
    assert_eq!(px_sub(2, 3), -1);
    assert_eq!(px_sub(i64::MIN, 1), i64::MIN);
    assert_eq!(px_sub(i64::MAX, -1), i64::MAX);
    assert_eq!(px_sub(-2, i64::MAX), i64::MIN);
    assert_eq!(px_half(7), 3);
    assert_eq!(px_half(-7), -3);
    assert_eq!(px_half(8), 4);
    assert_eq!(from_px(2), 2000);
    assert_eq!(from_px(-2), -2000);
}
