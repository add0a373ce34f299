use boxlayout::boxes::{build_layout_tree, BoxType, Dimensions};
use boxlayout::css::{Color, Rule, Selector, Stylesheet, Unit, Value};
use boxlayout::grammar::CharClass;
use boxlayout::node::{Node, NodeType};
use boxlayout::parser::{parse, parse_document, Parser};
use boxlayout::style::{specified_values, style_tree};
use boxlayout::units::from_px;

fn parser(text: &str) -> Parser {
    Parser::new(text.to_string())
}

fn rules(text: &str) -> Option<Vec<Rule>> {
    parser(text).parse_rules()
}

fn tag(node: &Node) -> &str {
    match &node.node_type {
        NodeType::Element(e) => e.tag_name.as_str(),
        NodeType::Text(_) => panic!("text node"),
    }
}

fn text_of(node: &Node) -> &str {
    match &node.node_type {
        NodeType::Text(t) => t.as_str(),
        NodeType::Element(_) => panic!("element"),
    }
}

fn attr(node: &Node, name: &str) -> Option<String> {
    match &node.node_type {
        NodeType::Element(e) => e.attributes.get(name).cloned(),
        NodeType::Text(_) => None,
    }
}

fn selector_parts(s: &Selector) -> (Option<String>, Option<String>, Vec<String>) {
    match s {
        Selector::Simple(x) => (x.tag_name.clone(), x.id.clone(), x.class.clone()),
    }
}

fn value_of(text: &str) -> Option<Value> {
    parser(text).parse_value()
}

fn length_of(text: &str) -> Option<i64> {
    match value_of(text) {
        Some(Value::Length(n, Unit::Px)) => Some(n),
        _ => None,
    }
}

#[test]
fn document_with_one_root() {
    let doc = parse("<div id=\"main\" class='a b'><p>Hello</p> world </div>".to_string());
    assert_eq!(tag(&doc), "div");
    assert_eq!(attr(&doc, "id"), Some("main".to_string()));
    assert_eq!(attr(&doc, "class"), Some("a b".to_string()));
    assert_eq!(attr(&doc, "title"), None);
    assert_eq!(doc.children.len(), 2);
    assert_eq!(tag(&doc.children[0]), "p");
    assert_eq!(text_of(&doc.children[0].children[0]), "Hello");
    assert_eq!(text_of(&doc.children[1]), "world ");
}

#[test]
fn several_roots_are_wrapped() {
    let doc = parse("<a></a><b></b>".to_string());
    assert_eq!(tag(&doc), "html");
    assert_eq!(doc.children.len(), 2);
    assert_eq!(tag(&doc.children[0]), "a");
    assert_eq!(tag(&doc.children[1]), "b");
}

#[test]
fn empty_text_is_an_empty_document() {
    let doc = parse("  ".to_string());
    assert_eq!(tag(&doc), "html");
    assert_eq!(doc.children.len(), 0);
}

#[test]
fn text_alone_is_the_document() {
    let doc = parse("  hello there".to_string());
    assert_eq!(text_of(&doc), "hello there");
}

#[test]
fn later_attribute_stands() {
    let doc = parse("<a x='1' x='2'></a>".to_string());
    assert_eq!(attr(&doc, "x"), Some("2".to_string()));
}

#[test]
fn text_with_letters_beyond_ascii() {
    let doc = parse("<p>gr\u{fc}\u{df}e</p>".to_string());
    assert_eq!(text_of(&doc.children[0]), "gr\u{fc}\u{df}e");
}

#[test]
fn malformed_documents_are_refused() {
    assert!(parse_document("<div>".to_string()).is_none());
    assert!(parse_document("<div></span>".to_string()).is_none());
    assert!(parse_document("<div id=\"x></div>".to_string()).is_none());
    assert!(parse_document("<div id=x></div>".to_string()).is_none());
    assert!(parse_document("<div id></div>".to_string()).is_none());
    assert!(parse_document("<div".to_string()).is_none());
    assert!(parse_document("<div></div".to_string()).is_none());
    assert!(parse_document("<a><b></a></b>".to_string()).is_none());
    assert!(parse_document("<div></div>".to_string()).is_some());
}

#[test]
fn text_after_a_closing_tag_is_left() {
    let doc = parse_document("<a></a></b>".to_string()).unwrap();
    assert_eq!(tag(&doc), "a");
}

#[test]
fn rule_with_selectors_and_declarations() {
    let rules = rules("div.note#x, h1 , * { margin: auto; color: #cc00FF; width: 12.5px; }").unwrap();
    assert_eq!(rules.len(), 1);
    let r = &rules[0];
    assert_eq!(r.selectors.len(), 3);
    assert_eq!(
        selector_parts(&r.selectors[0]),
        (Some("div".to_string()), Some("x".to_string()), vec!["note".to_string()])
    );
    assert_eq!(selector_parts(&r.selectors[1]), (Some("h1".to_string()), None, vec![]));
    assert_eq!(selector_parts(&r.selectors[2]), (None, None, vec![]));
    assert_eq!(r.selectors[0].specificity(), (1, 1, 1));
    assert_eq!(r.selectors[1].specificity(), (0, 0, 1));
    assert_eq!(r.selectors[2].specificity(), (0, 0, 0));
    assert_eq!(r.declarations.len(), 3);
    assert_eq!(r.declarations[0].name, "margin");
    assert!(matches!(&r.declarations[0].value, Value::Keyword(k) if k == "auto"));
    assert_eq!(r.declarations[1].name, "color");
    assert!(matches!(
        &r.declarations[1].value,
        Value::Color(Color { r: 0xcc, g: 0, b: 0xff, a: 255 })
    ));
    assert_eq!(r.declarations[2].name, "width");
    assert!(matches!(&r.declarations[2].value, Value::Length(12500, Unit::Px)));
}

#[test]
fn selectors_are_sorted_most_specific_first() {
    let rules = rules("div, .b.c, #a, p, .d {}").unwrap();
    let tags: Vec<(usize, usize, usize)> =
        rules[0].selectors.iter().map(|s| s.specificity()).collect();
    assert_eq!(tags, vec![(1, 0, 0), (0, 2, 0), (0, 1, 0), (0, 0, 1), (0, 0, 1)]);
    assert_eq!(selector_parts(&rules[0].selectors[3]).0, Some("div".to_string()));
    assert_eq!(selector_parts(&rules[0].selectors[4]).0, Some("p".to_string()));
}

#[test]
fn several_rules() {
    let rules = rules(" a { x: y; }\n b{}  ").unwrap();
    assert_eq!(rules.len(), 2);
    assert_eq!(rules[0].declarations.len(), 1);
    assert_eq!(rules[1].declarations.len(), 0);
    let none = parser("").parse_rules().unwrap();
    assert_eq!(none.len(), 0);
}

#[test]
fn malformed_rules_are_refused() {
    assert!(rules("a { x: y }").is_none());
    assert!(rules("a { x y; }").is_none());
    assert!(rules("a { x: 1em; }").is_none());
    assert!(rules("a { x: #12345; }").is_none());
    assert!(rules("a { x: #12345g; }").is_none());
    assert!(rules("a { x: 1.2.3px; }").is_none());
    assert!(rules("a { x: y;").is_none());
    assert!(rules("a b { x: y; }").is_none());
    assert!(rules("a, ").is_none());
    assert!(rules("a").is_none());
    assert!(rules("a > b {}").is_none());
}

#[test]
fn numbers_are_read_in_thousandths() {
    assert_eq!(length_of("1px"), Some(1000));
    assert_eq!(length_of("1.5px"), Some(1500));
    assert_eq!(length_of("0.125px"), Some(125));
    assert_eq!(length_of("0.1239px"), Some(123));
    assert_eq!(length_of("5.px"), Some(5000));
    assert_eq!(length_of("007.05px"), Some(7050));
    assert_eq!(length_of("800px"), Some(from_px(800)));
    assert_eq!(length_of("9223372036854775.807px"), Some(i64::MAX));
    assert_eq!(length_of("9223372036854775.806px"), Some(i64::MAX - 1));
    assert_eq!(length_of("9223372036854776px"), Some(i64::MAX));
    assert_eq!(length_of("99999999999999999999999999px"), Some(i64::MAX));
    assert_eq!(parser(".5").parse_number(), Some(500));
    assert_eq!(parser(".").parse_number(), None);
    assert_eq!(parser("").parse_number(), None);
    assert_eq!(parser("1..2").parse_number(), None);
}

#[test]
fn unit_is_read_in_any_case() {
    assert_eq!(length_of("3PX"), Some(3000));
    assert_eq!(length_of("3Px"), Some(3000));
    assert_eq!(length_of("3"), None);
    assert_eq!(length_of("3pt"), None);
    assert_eq!(parser("pX;").parse_unit(), Some(Unit::Px));
}

#[test]
fn colours_take_six_hexadecimal_digits() {
    assert!(matches!(
        value_of("#0a1B2c"),
        Some(Value::Color(Color { r: 0x0a, g: 0x1b, b: 0x2c, a: 255 }))
    ));
    assert!(value_of("#+1+2+3").is_none());
    assert!(value_of("#ffff").is_none());
    assert_eq!(parser("fF").parse_hex_pair(), Some(255));
    assert_eq!(parser("0").parse_hex_pair(), None);
}

#[test]
fn keywords_are_identifiers() {
    assert!(matches!(value_of("inline-block;"), Some(Value::Keyword(k)) if k == "inline-block"));
    assert!(matches!(value_of(";"), Some(Value::Keyword(k)) if k.is_empty()));
    assert!(value_of("").is_none());
}

#[test]
fn runs_and_single_characters() {
    let mut p = parser("  ab-c_1 <x");
    assert!(!p.eof());
    p.consume_whitespace();
    assert_eq!(p.next_char(), 'a');
    assert_eq!(p.parse_tag_name(), "ab");
    assert_eq!(p.parse_identifier(), "-c_1");
    assert_eq!(p.consume_while(CharClass::Except('<')), " ");
    assert!(p.starts_with("<x"));
    assert!(!p.starts_with("<xy"));
    assert!(!p.starts_with("x"));
    assert!(!p.expect('x'));
    assert!(p.expect('<'));
    assert_eq!(p.consume_char(), 'x');
    assert!(p.eof());
    assert!(!p.expect('x'));
    assert_eq!(p.consume_while(CharClass::Digit), "");
}

#[test]
fn simple_selector_keeps_the_last_id_and_tag() {
    let s = parser("a#x.k#y*b.l{").parse_simple_selector();
    assert_eq!(s.tag_name, Some("b".to_string()));
    assert_eq!(s.id, Some("y".to_string()));
    assert_eq!(s.class, vec!["k".to_string(), "l".to_string()]);
}

#[test]
fn document_and_style_sheet_to_boxes() {
    let doc = parse(
        "<div class='page'><p id='intro'>One</p><span>two</span><p class='wide note'>Three</p></div>"
            .to_string(),
    );
    let sheet = Stylesheet {
        rules: rules(
            "span { display: inline; }
             p { height: 20px; margin: 10px; }
             .page { width: 600px; padding: 5px; }
             p.wide { width: 100px; margin-left: auto; }
             #intro { height: 40px; }",
        )
        .unwrap(),
    };
    let styled = style_tree(&doc, &sheet);
    let mut root = build_layout_tree(&styled);
    let mut viewport = Dimensions::default();
    viewport.content.width = from_px(800);
    root.layout(viewport);

    assert_eq!(root.children.len(), 3);
    assert!(matches!(root.children[1].box_type, BoxType::AnonymousBlock));
    let d = root.dimensions;
    assert_eq!(d.content.width, from_px(600));
    assert_eq!(d.content.x, from_px(5));
    assert_eq!(d.padding.left, from_px(5));
    // Nothing is auto: what is left of 800 beside the two paddings goes to
    // the right margin.
    assert_eq!(d.margin.right, from_px(790));

    let intro = root.children[0].dimensions;
    assert_eq!(intro.content.height, from_px(40));
    assert_eq!(intro.content.width, from_px(580));
    assert_eq!(intro.content.x, from_px(15));
    assert_eq!(intro.content.y, from_px(15));

    let wide = root.children[2].dimensions;
    assert_eq!(wide.content.width, from_px(100));
    assert_eq!(wide.margin.right, from_px(10));
    assert_eq!(wide.margin.left, from_px(590));
    assert_eq!(wide.content.y, from_px(5 + 60 + 10));
    assert_eq!(d.content.height, from_px(60 + 40));
}

#[test]
fn class_names_are_separated_by_white_space() {
    let doc = parse("<p class=' wide\tnote\n big '></p>".to_string());
    let sheet = Stylesheet {
        rules: rules(
            ".note { a: yes; } .wide.big { b: yes; } .wid { c: yes; } .wide.small { d: yes; }",
        )
        .unwrap(),
    };
    let e = match &doc.node_type {
        NodeType::Element(e) => e,
        NodeType::Text(_) => panic!("text node"),
    };
    assert!(e.has_class("note"));
    assert!(e.has_class("big"));
    assert!(!e.has_class("bi"));
    assert!(!e.has_class(""));
    assert!(!e.has_class("wide\tnote"));
    let values = specified_values(e, &sheet);
    assert!(values.contains_key("a"));
    assert!(values.contains_key("b"));
    assert!(!values.contains_key("c"));
    assert!(!values.contains_key("d"));
}
