use boxlayout::css::{
    match_rule, matches_simple_selector, matching_rules, Color, Declaration, Rule,
    Selector, SimpleSelector, Stylesheet, Unit, Value,
};
use boxlayout::node::{AttrMap, ElementData};
use boxlayout::style::{specified_values, specificity_lt, PropertyMap};

fn keyword(word: &str) -> Value {
    Value::Keyword(word.to_string())
}

fn simple(tag: Option<&str>, id: Option<&str>, classes: &[&str]) -> SimpleSelector {
    SimpleSelector {
        tag_name: tag.map(|s| s.to_string()),
        id: id.map(|s| s.to_string()),
        class: classes.iter().map(|s| s.to_string()).collect(),
    }
}

fn selector(tag: Option<&str>, id: Option<&str>, classes: &[&str]) -> Selector {
    Selector::Simple(simple(tag, id, classes))
}

fn declarations(decls: &[(&str, Value)]) -> Vec<Declaration> {
    decls.iter().map(|(n, v)| Declaration { name: n.to_string(), value: v.clone() }).collect()
}

fn rule(tag: Option<&str>, id: Option<&str>, classes: &[&str], decls: &[(&str, Value)]) -> Rule {
    Rule { selectors: vec![selector(tag, id, classes)], declarations: declarations(decls) }
}

fn element(tag: &str, attrs: &[(&str, &str)]) -> ElementData {
    let mut map = AttrMap::new();
    for (k, v) in attrs {
        map.insert(k.to_string(), v.to_string());
    }
    ElementData { tag_name: tag.to_string(), attributes: map }
}

fn keyword_of(values: &PropertyMap, name: &str) -> Option<String> {
    match values.get(name) {
        Some(Value::Keyword(s)) => Some(s.clone()),
        _ => None,
    }
}

fn some(word: &str) -> Option<String> {
    Some(word.to_string())
}

#[test]
fn more_specific_rule_wins() {
    let sheet = Stylesheet {
        rules: vec![
            rule(None, None, &["a"], &[("color", keyword("red"))]),
            rule(None, Some("b"), &[], &[("color", keyword("blue"))]),
        ],
    };
    let e = element("div", &[("class", "a"), ("id", "b")]);
    let values = specified_values(&e, &sheet);
    assert_eq!(keyword_of(&values, "color"), some("blue"));
}

#[test]
fn more_specific_rule_wins_when_it_comes_first() {
    let sheet = Stylesheet {
        rules: vec![
            rule(None, Some("b"), &[], &[("color", keyword("blue"))]),
            rule(None, None, &["a"], &[("color", keyword("red"))]),
        ],
    };
    let e = element("div", &[("class", "a"), ("id", "b")]);
    let values = specified_values(&e, &sheet);
    assert_eq!(keyword_of(&values, "color"), some("blue"));
}

#[test]
fn later_rule_wins_between_equals() {
    let sheet = Stylesheet {
        rules: vec![
            rule(None, None, &["a"], &[("color", keyword("red")), ("width", keyword("auto"))]),
            rule(None, None, &["b"], &[("color", keyword("green"))]),
            rule(Some("p"), None, &[], &[("color", keyword("black")), ("top", keyword("t"))]),
        ],
    };
    let e = element("p", &[("class", "b a")]);
    let values = specified_values(&e, &sheet);
    assert_eq!(keyword_of(&values, "color"), some("green"));
    assert_eq!(keyword_of(&values, "width"), some("auto"));
    assert_eq!(keyword_of(&values, "top"), some("t"));
    assert_eq!(values.len(), 3);
}

#[test]
fn later_declaration_wins_within_a_rule() {
    let sheet = Stylesheet {
        rules: vec![rule(
            Some("p"),
            None,
            &[],
            &[("color", keyword("red")), ("x", keyword("y")), ("color", keyword("blue"))],
        )],
    };
    let values = specified_values(&element("p", &[]), &sheet);
    assert_eq!(keyword_of(&values, "color"), some("blue"));
}

#[test]
fn cascade_is_a_function_of_its_arguments() {
    let sheet = Stylesheet {
        rules: vec![
            rule(None, None, &["a"], &[("color", keyword("red")), ("m", Value::Length(5, Unit::Px))]),
            rule(Some("p"), None, &["a"], &[("color", keyword("blue"))]),
            rule(None, None, &[], &[("c", Value::Color(Color { r: 1, g: 2, b: 3, a: 255 }))]),
        ],
    };
    let e = element("p", &[("class", "a")]);
    let first = specified_values(&e, &sheet);
    let second = specified_values(&e, &sheet);
    assert_eq!(first.len(), 3);
    assert_eq!(second.len(), 3);
    for name in ["color", "m", "c"] {
        assert_eq!(format!("{:?}", first.get(name)), format!("{:?}", second.get(name)));
    }
    assert_eq!(keyword_of(&first, "color"), some("blue"));
    assert!(matches!(first.get("m"), Some(Value::Length(5, Unit::Px))));
    assert!(matches!(first.get("c"), Some(Value::Color(Color { r: 1, g: 2, b: 3, a: 255 }))));
}

#[test]
fn rules_that_do_not_match_set_nothing() {
    let sheet = Stylesheet {
        rules: vec![
            rule(Some("h1"), None, &[], &[("color", keyword("red"))]),
            rule(None, Some("x"), &[], &[("width", keyword("auto"))]),
        ],
    };
    let values = specified_values(&element("p", &[("id", "y")]), &sheet);
    assert!(values.is_empty());
    let none = specified_values(&element("p", &[]), &Stylesheet::new());
    assert!(none.is_empty());
}

#[test]
fn rule_counts_with_its_first_matching_selector() {
    // The first selector that matches gives the rule its specificity, here
    // the tag name, so the class rule behind it wins.
    let first = Rule {
        selectors: vec![
            selector(None, Some("nope"), &[]),
            selector(Some("p"), None, &[]),
            selector(None, Some("x"), &[]),
        ],
        declarations: declarations(&[("color", keyword("red"))]),
    };
    let e = element("p", &[("id", "x"), ("class", "c")]);
    assert_eq!(match_rule(&e, &first).map(|m| m.0), Some((0, 0, 1)));
    let sheet = Stylesheet {
        rules: vec![first, rule(None, None, &["c"], &[("color", keyword("blue"))])],
    };
    let found = matching_rules(&e, &sheet);
    assert_eq!(found.len(), 2);
    assert_eq!(found[0].0, (0, 0, 1));
    assert_eq!(found[1].0, (0, 1, 0));
    let values = specified_values(&e, &sheet);
    assert_eq!(keyword_of(&values, "color"), some("blue"));
}

#[test]
fn matching_rules_keep_the_order_of_the_stylesheet() {
    let sheet = Stylesheet {
        rules: vec![
            rule(None, Some("x"), &[], &[("a", keyword("1"))]),
            rule(Some("div"), None, &[], &[("b", keyword("2"))]),
            rule(None, None, &[], &[("c", keyword("3"))]),
            rule(Some("p"), None, &["k"], &[("d", keyword("4"))]),
        ],
    };
    let e = element("p", &[("id", "x"), ("class", "k")]);
    let found = matching_rules(&e, &sheet);
    let names: Vec<&str> = found.iter().map(|m| m.1.declarations[0].name.as_str()).collect();
    assert_eq!(names, vec!["a", "c", "d"]);
    let ranks: Vec<(usize, usize, usize)> = found.iter().map(|m| m.0).collect();
    assert_eq!(ranks, vec![(1, 0, 0), (0, 0, 0), (0, 1, 1)]);
}

#[test]
fn rule_without_selectors_never_matches() {
    let mut r = Rule::new();
    r.declarations = declarations(&[("a", keyword("b"))]);
    assert!(match_rule(&element("p", &[]), &r).is_none());
}

#[test]
fn selector_parts_must_all_agree() {
    let e = element("div", &[("id", "main"), ("class", "note big")]);
    assert!(matches_simple_selector(&e, &simple(None, None, &[])));
    assert!(matches_simple_selector(&e, &simple(Some("div"), None, &[])));
    assert!(!matches_simple_selector(&e, &simple(Some("p"), None, &[])));
    assert!(matches_simple_selector(&e, &simple(None, Some("main"), &[])));
    assert!(!matches_simple_selector(&e, &simple(None, Some("other"), &[])));
    assert!(matches_simple_selector(&e, &simple(None, None, &["big", "note"])));
    assert!(!matches_simple_selector(&e, &simple(None, None, &["big", "small"])));
    assert!(matches_simple_selector(&e, &simple(Some("div"), Some("main"), &["note"])));
    assert!(!matches_simple_selector(&e, &simple(Some("div"), Some("main"), &["not"])));
    assert!(boxlayout::css::matches(&e, &selector(Some("div"), None, &["big"])));
    assert!(!boxlayout::css::matches(&e, &selector(Some("span"), None, &["big"])));

    let bare = element("div", &[]);
    assert!(!matches_simple_selector(&bare, &simple(None, Some("main"), &[])));
    assert!(!matches_simple_selector(&bare, &simple(None, None, &["note"])));
    assert!(matches_simple_selector(&bare, &simple(Some("div"), None, &[])));
}

#[test]
fn specificity_counts_id_classes_and_tag() {
    assert_eq!(selector(None, None, &[]).specificity(), (0, 0, 0));
    assert_eq!(selector(Some("a"), None, &[]).specificity(), (0, 0, 1));
    assert_eq!(selector(None, Some("i"), &[]).specificity(), (1, 0, 0));
    assert_eq!(selector(Some("a"), Some("i"), &["x", "y", "z"]).specificity(), (1, 3, 1));
}

#[test]
fn specificities_are_ordered_from_the_left() {
    assert!(specificity_lt((0, 9, 9), (1, 0, 0)));
    assert!(specificity_lt((0, 1, 9), (0, 2, 0)));
    assert!(specificity_lt((0, 1, 0), (0, 1, 1)));
    assert!(!specificity_lt((0, 1, 1), (0, 1, 1)));
    assert!(!specificity_lt((1, 0, 0), (0, 9, 9)));
}

#[test]
fn values_are_copied_whole() {
    let d = Declaration { name: "n".to_string(), value: Value::Length(-7, Unit::Px) };
    let c = d.clone();
    assert_eq!(c.name, "n");
    assert!(matches!(c.value, Value::Length(-7, Unit::Px)));
    assert!(matches!(keyword("k").clone(), Value::Keyword(k) if k == "k"));
    let color = Value::Color(Color { r: 9, g: 8, b: 7, a: 6 });
    assert!(matches!(color.clone(), Value::Color(Color { r: 9, g: 8, b: 7, a: 6 })));
}
