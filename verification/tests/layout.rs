use boxlayout::boxes::{build_layout_tree, BoxType, Dimensions, EdgeSizes, LayoutBox, Rect};
use boxlayout::css::{Declaration, Rule, Selector, SimpleSelector, Stylesheet, Unit, Value};
use boxlayout::node::{elem, text, AttrMap, Node};
use boxlayout::style::{style_tree, Display};
use boxlayout::units::from_px;

fn keyword(word: &str) -> Value {
    Value::Keyword(word.to_string())
}

fn length(px: i64) -> Value {
    Value::Length(from_px(px), Unit::Px)
}

fn id_rule(id: &str, decls: Vec<(&str, Value)>) -> Rule {
    Rule {
        selectors: vec![Selector::Simple(SimpleSelector {
            tag_name: None,
            id: Some(id.to_string()),
            class: vec![],
        })],
        declarations: decls
            .into_iter()
            .map(|(n, v)| Declaration { name: n.to_string(), value: v })
            .collect(),
    }
}

fn node(id: &str, children: Vec<Node>) -> Node {
    let mut attrs = AttrMap::new();
    attrs.insert("id".to_string(), id.to_string());
    elem("div".to_string(), attrs, children)
}

fn viewport(width: i64) -> Dimensions {
    let mut d = Dimensions::default();
    d.content.width = from_px(width);
    d
}

fn laid_out_single(decls: Vec<(&str, Value)>, width: i64) -> Dimensions {
    let doc = node("box", vec![]);
    let sheet = Stylesheet { rules: vec![id_rule("box", decls)] };
    let styled = style_tree(&doc, &sheet);
    let mut root = build_layout_tree(&styled);
    root.layout(viewport(width));
    root.dimensions
}

#[test]
fn auto_width_fills_containing_block() {
    let d = laid_out_single(vec![("width", keyword("auto"))], 800);
    assert_eq!(d.content.width, from_px(800));
    assert_eq!(d.margin.left, 0);
    assert_eq!(d.margin.right, 0);
}

#[test]
fn unset_width_fills_containing_block() {
    let d = laid_out_single(vec![], 800);
    assert_eq!(d.content.width, 800_000);
}

#[test]
fn auto_margins_are_zero_beside_auto_width() {
    let d = laid_out_single(
        vec![
            ("width", keyword("auto")),
            ("margin-left", keyword("auto")),
            ("margin-right", keyword("auto")),
            ("padding-left", length(20)),
            ("padding-right", length(20)),
        ],
        800,
    );
    assert_eq!(d.content.width, from_px(760));
    assert_eq!(d.margin.left, 0);
    assert_eq!(d.margin.right, 0);
    assert_eq!(d.padding.left, from_px(20));
    assert_eq!(d.padding.right, from_px(20));
}

#[test]
fn auto_margins_share_the_space_left_over() {
    // The width is no part of the sum that is held against the containing
    // block, so the two margins share all 800 pixels.
    let d = laid_out_single(
        vec![
            ("width", length(300)),
            ("margin-left", keyword("auto")),
            ("margin-right", keyword("auto")),
        ],
        800,
    );
    assert_eq!(d.content.width, from_px(300));
    assert_eq!(d.margin.left, from_px(400));
    assert_eq!(d.margin.right, from_px(400));
}

#[test]
fn auto_margins_share_what_padding_leaves() {
    let d = laid_out_single(
        vec![
            ("width", length(300)),
            ("margin-left", keyword("auto")),
            ("margin-right", keyword("auto")),
            ("padding", length(150)),
        ],
        800,
    );
    assert_eq!(d.margin.left, from_px(250));
    assert_eq!(d.margin.right, from_px(250));
}

#[test]
fn odd_space_is_halved_towards_zero() {
    let d = laid_out_single(
        vec![
            ("width", length(10)),
            ("margin", keyword("auto")),
            ("padding-left", Value::Length(1, Unit::Px)),
        ],
        1,
    );
    // 1000 - 1 = 999 units are left over.
    assert_eq!(d.margin.left, 499);
    assert_eq!(d.margin.right, 499);
}

#[test]
fn right_margin_takes_the_space_when_nothing_is_auto() {
    let d = laid_out_single(
        vec![
            ("width", length(100)),
            ("margin-left", length(10)),
            ("margin-right", length(20)),
            ("border-width", length(5)),
        ],
        800,
    );
    // total = 10 + 20 + 5 + 5 = 40, left over 760, added to the right margin.
    assert_eq!(d.margin.left, from_px(10));
    assert_eq!(d.margin.right, from_px(780));
    assert_eq!(d.border.left, from_px(5));
    assert_eq!(d.border.right, from_px(5));
    assert_eq!(d.content.width, from_px(100));
}

#[test]
fn auto_right_margin_takes_the_space() {
    let d = laid_out_single(
        vec![
            ("width", length(100)),
            ("margin-left", length(10)),
            ("margin-right", keyword("auto")),
        ],
        800,
    );
    assert_eq!(d.margin.left, from_px(10));
    assert_eq!(d.margin.right, from_px(790));
}

#[test]
fn auto_left_margin_takes_the_space() {
    let d = laid_out_single(
        vec![
            ("width", length(100)),
            ("margin-left", keyword("auto")),
            ("margin-right", length(10)),
        ],
        800,
    );
    assert_eq!(d.margin.left, from_px(790));
    assert_eq!(d.margin.right, from_px(10));
}

#[test]
fn too_wide_box_drops_auto_margins() {
    let d = laid_out_single(
        vec![
            ("width", length(100)),
            ("margin-left", keyword("auto")),
            ("margin-right", keyword("auto")),
            ("padding-left", length(900)),
        ],
        800,
    );
    assert_eq!(d.margin.left, 0);
    assert_eq!(d.margin.right, from_px(-100));
    assert_eq!(d.content.width, from_px(100));
}

#[test]
fn auto_width_is_zero_when_no_space_is_left() {
    let d = laid_out_single(
        vec![("padding-left", length(900)), ("margin-right", length(30))],
        800,
    );
    // total = 900 + 30, so 130 pixels are missing.
    assert_eq!(d.content.width, 0);
    assert_eq!(d.margin.right, from_px(-100));
}

#[test]
fn shorthand_is_used_where_the_side_is_not_set() {
    let d = laid_out_single(
        vec![
            ("margin", length(7)),
            ("margin-top", length(3)),
            ("padding", length(2)),
            ("border-width", length(1)),
            ("border-bottom-width", length(4)),
        ],
        100,
    );
    assert_eq!(d.margin.top, from_px(3));
    assert_eq!(d.margin.bottom, from_px(7));
    assert_eq!(d.margin.left, from_px(7));
    assert_eq!(d.padding.top, from_px(2));
    assert_eq!(d.padding.bottom, from_px(2));
    assert_eq!(d.border.top, from_px(1));
    assert_eq!(d.border.bottom, from_px(4));
    assert_eq!(d.content.x, from_px(10));
    assert_eq!(d.content.y, from_px(6));
}

#[test]
fn children_stack_below_one_another() {
    let doc = node("parent", vec![node("first", vec![]), node("second", vec![])]);
    let sheet = Stylesheet {
        rules: vec![
            id_rule("first", vec![("height", length(50))]),
            id_rule("second", vec![("height", length(30))]),
        ],
    };
    let styled = style_tree(&doc, &sheet);
    let mut root = build_layout_tree(&styled);
    root.layout(viewport(800));
    assert_eq!(root.children.len(), 2);
    assert_eq!(root.children[0].dimensions.content.y, 0);
    assert_eq!(root.children[0].dimensions.content.height, from_px(50));
    assert_eq!(root.children[1].dimensions.content.y, from_px(50));
    assert_eq!(root.children[1].dimensions.content.height, from_px(30));
    assert_eq!(root.dimensions.content.height, from_px(80));
    assert_eq!(root.dimensions.content.y, 0);
}

#[test]
fn set_height_stands_over_the_height_of_children() {
    let doc = node("parent", vec![node("first", vec![])]);
    let sheet = Stylesheet {
        rules: vec![
            id_rule("parent", vec![("height", length(10))]),
            id_rule("first", vec![("height", length(50)), ("margin", length(5))]),
        ],
    };
    let styled = style_tree(&doc, &sheet);
    let mut root = build_layout_tree(&styled);
    root.layout(viewport(800));
    assert_eq!(root.dimensions.content.height, from_px(10));
    assert_eq!(root.children[0].dimensions.content.y, from_px(5));
    assert_eq!(root.children[0].dimensions.margin_box().height, from_px(60));
}

#[test]
fn margins_of_children_count_for_the_height() {
    let doc = node("parent", vec![node("first", vec![]), node("second", vec![])]);
    let sheet = Stylesheet {
        rules: vec![
            id_rule("first", vec![("height", length(50)), ("margin", length(5))]),
            id_rule("second", vec![("height", length(30)), ("padding-top", length(1))]),
        ],
    };
    let styled = style_tree(&doc, &sheet);
    let mut root = build_layout_tree(&styled);
    root.layout(viewport(800));
    assert_eq!(root.children[1].dimensions.content.y, from_px(61));
    assert_eq!(root.dimensions.content.height, from_px(91));
}

#[test]
fn inline_and_anonymous_boxes_are_not_laid_out() {
    let doc = node("parent", vec![node("a", vec![])]);
    let sheet = Stylesheet {
        rules: vec![id_rule(
            "a",
            vec![("display", keyword("inline")), ("height", length(9))],
        )],
    };
    let styled = style_tree(&doc, &sheet);
    let mut root = build_layout_tree(&styled);
    root.layout(viewport(800));
    assert_eq!(root.children.len(), 1);
    assert!(matches!(root.children[0].box_type, BoxType::AnonymousBlock));
    assert_eq!(root.children[0].dimensions, Dimensions::default());
    assert_eq!(root.children[0].children[0].dimensions, Dimensions::default());
    assert_eq!(root.dimensions.content.height, 0);
}

fn kinds(b: &LayoutBox) -> Vec<&'static str> {
    b.children
        .iter()
        .map(|c| match c.box_type {
            BoxType::BlockNode(_) => "block",
            BoxType::InlineNode(_) => "inline",
            BoxType::AnonymousBlock => "anonymous",
        })
        .collect()
}

fn display_rules(ids: &[(&str, &str)]) -> Stylesheet {
    Stylesheet {
        rules: ids
            .iter()
            .map(|(id, display)| id_rule(id, vec![("display", keyword(display))]))
            .collect(),
    }
}

#[test]
fn inline_runs_are_wrapped() {
    let doc = node(
        "parent",
        vec![node("a", vec![]), node("b", vec![]), node("c", vec![]), node("d", vec![])],
    );
    let sheet = display_rules(&[("a", "inline"), ("b", "inline"), ("c", "block"), ("d", "inline")]);
    let styled = style_tree(&doc, &sheet);
    let root = build_layout_tree(&styled);
    assert!(matches!(root.box_type, BoxType::BlockNode(_)));
    assert_eq!(kinds(&root), vec!["anonymous", "block", "anonymous"]);
    assert_eq!(kinds(&root.children[0]), vec!["inline", "inline"]);
    assert_eq!(kinds(&root.children[1]), Vec::<&str>::new());
    assert_eq!(kinds(&root.children[2]), vec!["inline"]);
    assert_eq!(root.dimensions, Dimensions::default());
}

#[test]
fn inline_parent_holds_its_children_itself() {
    let doc = node("parent", vec![node("a", vec![]), node("b", vec![]), node("c", vec![])]);
    let sheet =
        display_rules(&[("parent", "inline"), ("a", "inline"), ("b", "block"), ("c", "inline")]);
    let styled = style_tree(&doc, &sheet);
    let root = build_layout_tree(&styled);
    assert!(matches!(root.box_type, BoxType::InlineNode(_)));
    assert_eq!(kinds(&root), vec!["inline", "block", "inline"]);
}

#[test]
fn hidden_subtree_is_left_out() {
    let doc = node(
        "parent",
        vec![
            node("a", vec![]),
            node("gone", vec![node("x", vec![]), node("y", vec![])]),
            node("b", vec![]),
            node("c", vec![]),
        ],
    );
    let sheet = display_rules(&[("a", "inline"), ("gone", "none"), ("b", "inline"), ("c", "block")]);
    let styled = style_tree(&doc, &sheet);
    let root = build_layout_tree(&styled);
    assert_eq!(kinds(&root), vec!["anonymous", "block"]);
    assert_eq!(kinds(&root.children[0]), vec!["inline", "inline"]);

    let without = node("parent", vec![node("a", vec![]), node("b", vec![]), node("c", vec![])]);
    let styled_without = style_tree(&without, &sheet);
    let root_without = build_layout_tree(&styled_without);
    assert_eq!(kinds(&root_without), kinds(&root));
    assert_eq!(kinds(&root_without.children[0]), kinds(&root.children[0]));
}

#[test]
fn text_children_are_blocks_without_values() {
    let doc = node("parent", vec![text("hello".to_string())]);
    let sheet = Stylesheet::new();
    let styled = style_tree(&doc, &sheet);
    assert_eq!(styled.children.len(), 1);
    assert!(styled.children[0].specified_values.is_empty());
    assert_eq!(styled.children[0].display(), Display::Block);
    let root = build_layout_tree(&styled);
    assert_eq!(kinds(&root), vec!["block"]);
}

#[test]
fn rectangle_grows_by_its_edges() {
    let r = Rect { x: 10, y: 20, width: 100, height: 50 };
    let e = EdgeSizes { left: 1, right: 2, top: 3, bottom: 4 };
    assert_eq!(r.expanded_by(e), Rect { x: 9, y: 17, width: 103, height: 57 });
}

#[test]
fn boxes_nest_padding_border_margin() {
    let d = Dimensions {
        content: Rect { x: 100, y: 100, width: 50, height: 40 },
        padding: EdgeSizes { left: 1, right: 1, top: 1, bottom: 1 },
        border: EdgeSizes { left: 2, right: 2, top: 2, bottom: 2 },
        margin: EdgeSizes { left: 4, right: 4, top: 4, bottom: 4 },
    };
    assert_eq!(d.padding_box(), Rect { x: 99, y: 99, width: 52, height: 42 });
    assert_eq!(d.border_box(), Rect { x: 97, y: 97, width: 56, height: 46 });
    assert_eq!(d.margin_box(), Rect { x: 93, y: 93, width: 64, height: 54 });
}

#[test]
fn lengths_saturate() {
    let r = Rect { x: i64::MIN, y: 0, width: i64::MAX, height: 0 };
    let e = EdgeSizes { left: 1, right: 1, top: 0, bottom: 0 };
    let g = r.expanded_by(e);
    assert_eq!(g.x, i64::MIN);
    assert_eq!(g.width, i64::MAX);
    assert_eq!(from_px(i64::MAX), i64::MAX);
    assert_eq!(from_px(-i64::MAX), i64::MIN);
    assert_eq!(from_px(3), 3000);
}
