//! The box tree and block layout.
use vstd::prelude::*;
use crate::css::{Unit, Value, ValueModel};
use crate::style::{
    Display, PropertyModel, StyledModel, StyledNode, display_model, is_keyword, lemma_styled_view,
    lookup_model, px_of, styled_models,
};
use crate::units::{half, px_add, px_half, px_sub, sat_add, sat_sub};

verus! {

/// A rectangle, in units of length.
#[derive(Debug, Clone, Copy, PartialEq, Eq, Structural)]
pub struct Rect {
    pub x: i64,
    pub y: i64,
    pub width: i64,
    pub height: i64,
}

/// The four sizes of one kind of edge around a box.
#[derive(Debug, Clone, Copy, PartialEq, Eq, Structural)]
pub struct EdgeSizes {
    pub left: i64,
    pub right: i64,
    pub top: i64,
    pub bottom: i64,
}

/// The geometry of a box: its content area and the edges around it.
#[derive(Debug, Clone, Copy, PartialEq, Eq, Structural)]
pub struct Dimensions {
    pub content: Rect,
    pub padding: EdgeSizes,
    pub border: EdgeSizes,
    pub margin: EdgeSizes,
}

/// What a box stands for.
pub enum BoxType<'a> {
    BlockNode(&'a StyledNode<'a>),
    InlineNode(&'a StyledNode<'a>),
    /// A box without a node, made to hold a run of inline boxes.
    AnonymousBlock,
}

/// A box of the layout tree, which owns its children.
pub struct LayoutBox<'a> {
    pub dimensions: Dimensions,
    pub box_type: BoxType<'a>,
    pub children: Vec<LayoutBox<'a>>,
}

/// The mathematical value of a [`BoxType`].
pub enum BoxKind {
    BlockNode(StyledModel),
    InlineNode(StyledModel),
    AnonymousBlock,
}

/// The mathematical value of a [`LayoutBox`].
pub struct BoxModel {
    pub dimensions: Dimensions,
    pub box_type: BoxKind,
    pub children: Seq<BoxModel>,
}

/// The rectangle at the origin without extent.
pub open spec fn zero_rect() -> Rect {
    Rect { x: 0, y: 0, width: 0, height: 0 }
}

/// Edges of size zero.
pub open spec fn zero_edges() -> EdgeSizes {
    EdgeSizes { left: 0, right: 0, top: 0, bottom: 0 }
}

/// The geometry of a box that was not laid out yet.
pub open spec fn zero_dimensions() -> Dimensions {
    Dimensions {
        content: zero_rect(),
        padding: zero_edges(),
        border: zero_edges(),
        margin: zero_edges(),
    }
}

/// `rect` grown by `edge` on each side.
pub open spec fn expanded(rect: Rect, edge: EdgeSizes) -> Rect {
    Rect {
        x: sat_sub(rect.x as int, edge.left as int) as i64,
        y: sat_sub(rect.y as int, edge.top as int) as i64,
        width: sat_add(sat_add(rect.width as int, edge.left as int), edge.right as int) as i64,
        height: sat_add(sat_add(rect.height as int, edge.top as int), edge.bottom as int) as i64,
    }
}

/// The content area with the padding around it.
pub open spec fn padding_box_of(d: Dimensions) -> Rect {
    expanded(d.content, d.padding)
}

/// The padding box with the border around it.
pub open spec fn border_box_of(d: Dimensions) -> Rect {
    expanded(padding_box_of(d), d.border)
}

/// The border box with the margin around it.
pub open spec fn margin_box_of(d: Dimensions) -> Rect {
    expanded(border_box_of(d), d.margin)
}

impl Default for Rect {
    fn default() -> (r: Rect)
        ensures
            r == zero_rect(),
    {
        Rect { x: 0, y: 0, width: 0, height: 0 }
    }
}

impl Default for EdgeSizes {
    fn default() -> (r: EdgeSizes)
        ensures
            r == zero_edges(),
    {
        EdgeSizes { left: 0, right: 0, top: 0, bottom: 0 }
    }
}

impl Default for Dimensions {
    fn default() -> (r: Dimensions)
        ensures
            r == zero_dimensions(),
    {
        Dimensions {
            content: Rect::default(),
            padding: EdgeSizes::default(),
            border: EdgeSizes::default(),
            margin: EdgeSizes::default(),
        }
    }
}

impl Rect {
    /// The rectangle grown by `edge` on each side.
    pub fn expanded_by(self, edge: EdgeSizes) -> (r: Rect)
        ensures
            r == expanded(self, edge),
    {
        Rect {
            x: px_sub(self.x, edge.left),
            y: px_sub(self.y, edge.top),
            width: px_add(px_add(self.width, edge.left), edge.right),
            height: px_add(px_add(self.height, edge.top), edge.bottom),
        }
    }
}

impl Dimensions {
    /// The content area with the padding around it.
    pub fn padding_box(self) -> (r: Rect)
        ensures
            r == padding_box_of(self),
    {
        self.content.expanded_by(self.padding)
    }

    /// The padding box with the border around it.
    pub fn border_box(self) -> (r: Rect)
        ensures
            r == border_box_of(self),
    {
        self.padding_box().expanded_by(self.border)
    }

    /// The border box with the margin around it.
    pub fn margin_box(self) -> (r: Rect)
        ensures
            r == margin_box_of(self),
    {
        self.border_box().expanded_by(self.margin)
    }
}

impl<'a> View for BoxType<'a> {
    type V = BoxKind;

    open spec fn view(&self) -> BoxKind {
        match self {
            BoxType::BlockNode(s) => BoxKind::BlockNode(s@),
            BoxType::InlineNode(s) => BoxKind::InlineNode(s@),
            BoxType::AnonymousBlock => BoxKind::AnonymousBlock,
        }
    }
}

impl<'a> LayoutBox<'a> {
    /// The value of the box: its geometry, what it stands for, and the
    /// values of its children.
    pub open spec fn model(&self) -> BoxModel
        decreases self,
    {
        BoxModel {
            dimensions: self.dimensions,
            box_type: self.box_type@,
            children: Seq::new(
                self.children@.len(),
                |i: int|
                    if 0 <= i < self.children@.len() {
                        self.children@[i].model()
                    } else {
                        arbitrary()
                    },
            ),
        }
    }
}

impl<'a> View for LayoutBox<'a> {
    type V = BoxModel;

    open spec fn view(&self) -> BoxModel {
        self.model()
    }
}

/// The values of a sequence of boxes, in order.
pub open spec fn box_models(boxes: Seq<LayoutBox>) -> Seq<BoxModel> {
    Seq::new(boxes.len(), |i: int| boxes[i]@)
}

/// A box's children are viewed one by one.
pub proof fn lemma_box_view(b: LayoutBox)
    ensures
        b@.dimensions == b.dimensions,
        b@.box_type == b.box_type@,
        b@.children == box_models(b.children@),
{
    assert(b@.children.len() == b.children@.len());
    assert forall|i: int| 0 <= i < b.children@.len() implies b@.children[i] == b.children@[i]@ by {}
    assert(b@.children =~= box_models(b.children@));
}

/// A box that was not laid out, without children.
pub open spec fn fresh_box(kind: BoxKind) -> BoxModel {
    BoxModel { dimensions: zero_dimensions(), box_type: kind, children: Seq::empty() }
}

/// Whether inline children of the box `b` go into a new anonymous box: `b`
/// stands for a block whose last child is not an anonymous box.
pub open spec fn needs_wrapper(b: BoxModel) -> bool {
    b.box_type is BlockNode && !(b.children.len() > 0 && b.children.last().box_type
        is AnonymousBlock)
}

/// The box that takes the inline children of `b`: `b` itself where it is an
/// inline or anonymous box; for a block, its last child where that is an
/// anonymous box, and a new anonymous box otherwise.
pub open spec fn inline_container(b: BoxModel) -> BoxModel {
    if !(b.box_type is BlockNode) {
        b
    } else if needs_wrapper(b) {
        fresh_box(BoxKind::AnonymousBlock)
    } else {
        b.children.last()
    }
}

/// The box `b` with `c` in the place of its inline container.
pub open spec fn with_inline_container(b: BoxModel, c: BoxModel) -> BoxModel {
    if !(b.box_type is BlockNode) {
        c
    } else if needs_wrapper(b) {
        BoxModel { children: b.children.push(c), ..b }
    } else {
        BoxModel { children: b.children.update(b.children.len() - 1, c), ..b }
    }
}

/// The box `b` with one more child.
pub open spec fn with_child(b: BoxModel, c: BoxModel) -> BoxModel {
    BoxModel { children: b.children.push(c), ..b }
}

/// What the box of a styled node stands for: an inline node where `display`
/// says so, a block otherwise.
pub open spec fn box_kind(s: StyledModel) -> BoxKind {
    if display_model(s.specified_values) == Display::Inline {
        BoxKind::InlineNode(s)
    } else {
        BoxKind::BlockNode(s)
    }
}

/// The box `b` after the styled nodes `kids` were placed in it in order: a
/// block becomes a child, an inline node a child of the inline container,
/// and a hidden node is left out with all below it.
pub open spec fn place_children(b: BoxModel, kids: Seq<StyledModel>) -> BoxModel
    decreases kids, 0nat,
{
    if kids.len() == 0 {
        b
    } else {
        let before = place_children(b, kids.drop_last());
        let kid = kids.last();
        match display_model(kid.specified_values) {
            Display::Hidden => before,
            Display::Block => with_child(before, box_tree(kid)),
            Display::Inline => with_inline_container(
                before,
                with_child(inline_container(before), box_tree(kid)),
            ),
        }
    }
}

/// The box tree of a styled node that is not hidden.
pub open spec fn box_tree(s: StyledModel) -> BoxModel
    decreases s, 1nat,
{
    place_children(fresh_box(box_kind(s)), s.children)
}

/// A hidden node leaves no trace: the boxes are those of the same children
/// without it, in the same order.
pub proof fn lemma_hidden_child_dropped(b: BoxModel, kids: Seq<StyledModel>, i: int)
    requires
        0 <= i < kids.len(),
        display_model(kids[i].specified_values) == Display::Hidden,
    ensures
        place_children(b, kids) == place_children(b, kids.remove(i)),
    decreases kids.len(),
{
    if i == kids.len() - 1 {
        assert(kids.remove(i) =~= kids.drop_last());
    } else {
        lemma_hidden_child_dropped(b, kids.drop_last(), i);
        assert(kids.remove(i).drop_last() =~= kids.drop_last().remove(i));
        assert(kids.remove(i).last() == kids.last());
    }
}

/// Whether `c` may be the child of a block: it is a block itself, or an
/// anonymous box that holds inline boxes only.
pub open spec fn block_level(c: BoxModel) -> bool {
    c.box_type is BlockNode || (c.box_type is AnonymousBlock && forall|j: int|
        0 <= j < c.children.len() ==> (#[trigger] c.children[j]).box_type is InlineNode)
}

/// Whether all children of `b` may be the children of a block.
pub open spec fn holds_block_level_only(b: BoxModel) -> bool {
    forall|i: int| 0 <= i < b.children.len() ==> block_level(#[trigger] b.children[i])
}

/// Placing children changes neither what a box stands for nor its geometry.
pub proof fn lemma_place_children_keeps_kind(b: BoxModel, kids: Seq<StyledModel>)
    ensures
        place_children(b, kids).box_type == b.box_type,
        place_children(b, kids).dimensions == b.dimensions,
    decreases kids.len(),
{
    if kids.len() > 0 {
        lemma_place_children_keeps_kind(b, kids.drop_last());
    }
}

/// In a block no inline box stands beside a block: each child that is
/// placed in a block is a block or an inline box, and the inline boxes go
/// into anonymous boxes, so the block holds blocks and anonymous boxes of
/// inline boxes only.
pub proof fn lemma_block_holds_block_level_only(b: BoxModel, kids: Seq<StyledModel>)
    requires
        b.box_type is BlockNode,
        holds_block_level_only(b),
    ensures
        holds_block_level_only(place_children(b, kids)),
    decreases kids.len(),
{
    if kids.len() > 0 {
        let before = place_children(b, kids.drop_last());
        let kid = kids.last();
        let after = place_children(b, kids);
        lemma_block_holds_block_level_only(b, kids.drop_last());
        lemma_place_children_keeps_kind(b, kids.drop_last());
        lemma_place_children_keeps_kind(fresh_box(box_kind(kid)), kid.children);
        match display_model(kid.specified_values) {
            Display::Hidden => {},
            Display::Block => {
                assert forall|i: int| 0 <= i < after.children.len() implies block_level(
                    #[trigger] after.children[i],
                ) by {
                    if i < before.children.len() {
                        assert(after.children[i] == before.children[i]);
                    }
                }
            },
            Display::Inline => {
                let container = with_child(inline_container(before), box_tree(kid));
                assert(block_level(container)) by {
                    assert forall|j: int| 0 <= j < container.children.len() implies (
                    #[trigger] container.children[j]).box_type is InlineNode by {
                        if j < container.children.len() - 1 {
                            assert(container.children[j] == inline_container(before).children[j]);
                            if !needs_wrapper(before) {
                                assert(block_level(before.children[before.children.len() - 1]));
                            }
                        }
                    }
                }
                assert forall|i: int| 0 <= i < after.children.len() implies block_level(
                    #[trigger] after.children[i],
                ) by {
                    if i < before.children.len() && after.children[i] != container {
                        assert(after.children[i] == before.children[i]);
                    }
                }
            },
        }
    }
}

/// The box tree of a styled node that is not inline holds, right below its
/// root, blocks and anonymous boxes of inline boxes only.
pub proof fn lemma_box_tree_separates_inline(s: StyledModel)
    requires
        display_model(s.specified_values) != Display::Inline,
    ensures
        box_tree(s).box_type is BlockNode,
        holds_block_level_only(box_tree(s)),
{
    lemma_place_children_keeps_kind(fresh_box(box_kind(s)), s.children);
    lemma_block_holds_block_level_only(fresh_box(box_kind(s)), s.children);
}

impl<'a> LayoutBox<'a> {
    /// A box that was not laid out, without children.
    pub fn new(box_type: BoxType<'a>) -> (b: LayoutBox<'a>)
        ensures
            b@ == fresh_box(box_type@),
            b.box_type == box_type,
            b.children@.len() == 0,
            b.dimensions == zero_dimensions(),
    {
        let b = LayoutBox { box_type, dimensions: Dimensions::default(), children: Vec::new() };
        proof {
            lemma_box_view(b);
            assert(box_models(b.children@) =~= Seq::empty());
        }
        b
    }

    /// The styled node that the box stands for.
    pub fn get_style_node(&self) -> (node: &'a StyledNode<'a>)
        requires
            !(self.box_type is AnonymousBlock),
        ensures
            self.box_type == BoxType::BlockNode(node) || self.box_type == BoxType::InlineNode(node),
    {
        match self.box_type {
            BoxType::BlockNode(node) => node,
            BoxType::InlineNode(node) => node,
            BoxType::AnonymousBlock => vstd::pervasive::unreached(),
        }
    }

    /// The box that takes inline children: the box itself where it is an
    /// inline or anonymous box; for a block, its last child where that is
    /// an anonymous box, and otherwise a new anonymous box, which becomes
    /// the last child.
    pub fn get_inline_container(&mut self) -> (container: &mut LayoutBox<'a>)
        ensures
            container@ == inline_container(old(self)@),
            final(self)@ == with_inline_container(old(self)@, final(container)@),
    {
        proof {
            lemma_box_view(*self);
        }
        match self.box_type {
            BoxType::InlineNode(_) | BoxType::AnonymousBlock => self,
            BoxType::BlockNode(_) => {
                let n = self.children.len();
                let wrapped = n > 0 && match self.children[n - 1].box_type {
                    BoxType::AnonymousBlock => true,
                    _ => false,
                };
                proof {
                    if n > 0 {
                        lemma_box_view(self.children@[n - 1]);
                    }
                }
                if !wrapped {
                    self.children.push(LayoutBox::new(BoxType::AnonymousBlock));
                }
                let last = self.children.len() - 1;
                proof {
                    let now = *self;
                    let before = old(self)@;
                    lemma_box_view(now);
                    assert forall|after: LayoutBox, c: LayoutBox|
                        after.dimensions == now.dimensions && after.box_type == now.box_type
                            && after.children@ == now.children@.update(
                            last as int,
                            c,
                        ) implies #[trigger] after.model() == with_inline_container(
                        before,
                        #[trigger] c.model(),
                    ) by {
                        lemma_box_view(after);
                        if wrapped {
                            assert(box_models(after.children@) =~= before.children.update(
                                last as int,
                                c@,
                            ));
                        } else {
                            assert(box_models(after.children@) =~= before.children.push(c@));
                        }
                    }
                }
                let container = &mut self.children[last];
                container
            },
        }
    }
}

/// Builds the box tree of a styled node that is not hidden. A block child
/// becomes a child box; inline children that follow one another share an
/// anonymous box, so that a block never has block and inline boxes side by
/// side; a hidden child is left out with all below it.
pub fn build_layout_tree<'a>(styled_node: &'a StyledNode<'a>) -> (root: LayoutBox<'a>)
    requires
        display_model(styled_node@.specified_values) != Display::Hidden,
    ensures
        root@ == box_tree(styled_node@),
    decreases styled_node,
{
    let mut root = LayoutBox::new(
        match styled_node.display() {
            Display::Block => BoxType::BlockNode(styled_node),
            Display::Inline => BoxType::InlineNode(styled_node),
            Display::Hidden => vstd::pervasive::unreached(),
        },
    );
    proof {
        lemma_styled_view(*styled_node);
    }
    let ghost kids = styled_node@.children;
    let n = styled_node.children.len();
    let mut i: usize = 0;
    assert(kids.take(0) =~= Seq::empty());
    while i < n
        invariant
            n == styled_node.children@.len(),
            i <= n,
            kids == styled_models(styled_node.children@),
            root@ == place_children(fresh_box(box_kind(styled_node@)), kids.take(i as int)),
        decreases n - i,
    {
        let child = &styled_node.children[i];
        proof {
            assert(kids.take(i + 1).drop_last() =~= kids.take(i as int));
            assert(kids.take(i + 1).last() == child@);
            lemma_styled_view(*child);
        }
        match child.display() {
            Display::Block => {
                let ghost before = root;
                let child_box = build_layout_tree(child);
                root.children.push(child_box);
                proof {
                    lemma_box_view(before);
                    lemma_box_view(root);
                    assert(box_models(root.children@) =~= box_models(before.children@).push(
                        child_box@,
                    ));
                }
            },
            Display::Inline => {
                let child_box = build_layout_tree(child);
                let container = root.get_inline_container();
                let ghost before = *container;
                container.children.push(child_box);
                proof {
                    lemma_box_view(before);
                    lemma_box_view(*container);
                    assert(box_models(container.children@) =~= box_models(before.children@).push(
                        child_box@,
                    ));
                }
            },
            Display::Hidden => {},
        }
        i = i + 1;
    }
    assert(kids.take(n as int) =~= kids);
    root
}

/// The length zero, which stands for an edge that is not set.
pub open spec fn zero_length() -> ValueModel {
    ValueModel::Length(0, Unit::Px)
}

/// The width that the style asks for: the keyword `auto` where none is set.
pub open spec fn specified_width(pm: PropertyModel) -> ValueModel {
    if pm.contains_key("width"@) {
        pm["width"@]
    } else {
        ValueModel::Keyword("auto"@)
    }
}

/// The value of one edge: that of its own property, else that of the
/// shorthand for all four sides, else zero.
pub open spec fn edge_value(pm: PropertyModel, name: Seq<char>, shorthand: Seq<char>) -> ValueModel {
    lookup_model(pm, name, shorthand, zero_length())
}

/// The sum of the horizontal margins, borders and paddings that the style
/// sets; a margin that is `auto` counts as zero, and the width is not part
/// of the sum.
pub open spec fn horizontal_total(pm: PropertyModel) -> int {
    let margin_left = px_of(edge_value(pm, "margin-left"@, "margin"@));
    let margin_right = px_of(edge_value(pm, "margin-right"@, "margin"@));
    let border_left = px_of(edge_value(pm, "border-left-width"@, "border-width"@));
    let border_right = px_of(edge_value(pm, "border-right-width"@, "border-width"@));
    let padding_left = px_of(edge_value(pm, "padding-left"@, "padding"@));
    let padding_right = px_of(edge_value(pm, "padding-right"@, "padding"@));
    sat_add(
        sat_add(
            sat_add(sat_add(sat_add(margin_left, margin_right), border_left), border_right),
            padding_left,
        ),
        padding_right,
    )
}

/// The space that the containing block leaves beside margins, borders and
/// paddings.
pub open spec fn underflow(pm: PropertyModel, containing_width: int) -> int {
    sat_sub(containing_width, horizontal_total(pm))
}

/// Whether a margin with value `margin` is resolved as `auto`: it is the
/// keyword, and the box is not one with a set width that is too wide for
/// its containing block, where such margins count as zero.
pub open spec fn margin_is_auto(pm: PropertyModel, containing_width: int, margin: ValueModel) -> bool {
    is_keyword(margin, "auto"@) && (is_keyword(specified_width(pm), "auto"@) || horizontal_total(pm)
        <= containing_width)
}

/// The width of the content area. A set width stands; a width that is
/// `auto` takes the space left over, and is zero where none is left.
pub open spec fn resolved_width(pm: PropertyModel, containing_width: int) -> int {
    if !is_keyword(specified_width(pm), "auto"@) {
        px_of(specified_width(pm))
    } else if underflow(pm, containing_width) >= 0 {
        underflow(pm, containing_width)
    } else {
        0
    }
}

/// The left margin. Beside a set width a left margin that is `auto` takes
/// the space left over, which it shares in halves with a right margin that
/// is `auto` too; in every other case the margin keeps its value, zero
/// for `auto`.
pub open spec fn resolved_margin_left(pm: PropertyModel, containing_width: int) -> int {
    let left = edge_value(pm, "margin-left"@, "margin"@);
    let right = edge_value(pm, "margin-right"@, "margin"@);
    if is_keyword(specified_width(pm), "auto"@) || !margin_is_auto(pm, containing_width, left) {
        px_of(left)
    } else if margin_is_auto(pm, containing_width, right) {
        half(underflow(pm, containing_width))
    } else {
        underflow(pm, containing_width)
    }
}

/// The right margin. Beside a set width a right margin that is `auto` takes
/// the space left over, or half of it beside a left margin that is `auto`;
/// where neither margin is `auto` the space left over is added to the
/// right margin. Beside a width that is `auto` the margin keeps its value,
/// zero for `auto`, and takes up what is missing where the space left over
/// is negative.
pub open spec fn resolved_margin_right(pm: PropertyModel, containing_width: int) -> int {
    let left = edge_value(pm, "margin-left"@, "margin"@);
    let right = edge_value(pm, "margin-right"@, "margin"@);
    let space = underflow(pm, containing_width);
    if is_keyword(specified_width(pm), "auto"@) {
        if space >= 0 {
            px_of(right)
        } else {
            sat_add(px_of(right), space)
        }
    } else if margin_is_auto(pm, containing_width, right) {
        if margin_is_auto(pm, containing_width, left) {
            half(space)
        } else {
            space
        }
    } else if margin_is_auto(pm, containing_width, left) {
        px_of(right)
    } else {
        sat_add(px_of(right), space)
    }
}

/// Whether a length is so far from the ends of the range of lengths that
/// sums of a few such lengths do not saturate.
pub open spec fn moderate(n: int) -> bool {
    -0x0400_0000_0000_0000 <= n <= 0x0400_0000_0000_0000
}

/// The horizontal sizes take up the containing block: while nothing
/// saturates, the resolved margins and the borders and paddings, together
/// with the width where that is `auto`, add up to the width of the
/// containing block; where two `auto` margins share an odd number of units,
/// one unit is left.
pub proof fn lemma_horizontal_sizes_fill(pm: PropertyModel, containing_width: int)
    requires
        moderate(containing_width),
        moderate(px_of(edge_value(pm, "margin-left"@, "margin"@))),
        moderate(px_of(edge_value(pm, "margin-right"@, "margin"@))),
        moderate(px_of(edge_value(pm, "border-left-width"@, "border-width"@))),
        moderate(px_of(edge_value(pm, "border-right-width"@, "border-width"@))),
        moderate(px_of(edge_value(pm, "padding-left"@, "padding"@))),
        moderate(px_of(edge_value(pm, "padding-right"@, "padding"@))),
    ensures
        ({
            let taken = resolved_margin_left(pm, containing_width) + px_of(
                edge_value(pm, "border-left-width"@, "border-width"@),
            ) + px_of(edge_value(pm, "padding-left"@, "padding"@)) + (if is_keyword(
                specified_width(pm),
                "auto"@,
            ) {
                resolved_width(pm, containing_width)
            } else {
                0
            }) + px_of(edge_value(pm, "padding-right"@, "padding"@)) + px_of(
                edge_value(pm, "border-right-width"@, "border-width"@),
            ) + resolved_margin_right(pm, containing_width);
            let halved = !is_keyword(specified_width(pm), "auto"@) && margin_is_auto(
                pm,
                containing_width,
                edge_value(pm, "margin-left"@, "margin"@),
            ) && margin_is_auto(pm, containing_width, edge_value(pm, "margin-right"@, "margin"@));
            if halved && underflow(pm, containing_width) % 2 == 1 {
                taken == containing_width - 1
            } else {
                taken == containing_width
            }
        }),
{
}

/// The geometry `d` with the horizontal sizes of a block whose style is
/// `pm`, in a containing block `cb`.
pub open spec fn with_width(d: Dimensions, pm: PropertyModel, cb: Dimensions) -> Dimensions {
    let w = cb.content.width as int;
    Dimensions {
        content: Rect { width: resolved_width(pm, w) as i64, ..d.content },
        padding: EdgeSizes {
            left: px_of(edge_value(pm, "padding-left"@, "padding"@)) as i64,
            right: px_of(edge_value(pm, "padding-right"@, "padding"@)) as i64,
            ..d.padding
        },
        border: EdgeSizes {
            left: px_of(edge_value(pm, "border-left-width"@, "border-width"@)) as i64,
            right: px_of(edge_value(pm, "border-right-width"@, "border-width"@)) as i64,
            ..d.border
        },
        margin: EdgeSizes {
            left: resolved_margin_left(pm, w) as i64,
            right: resolved_margin_right(pm, w) as i64,
            ..d.margin
        },
    }
}

/// The geometry `d` with the vertical edges of a block whose style is `pm`,
/// and with its content area placed in the containing block `cb`: inside
/// its own left edges, and below what the containing block holds so far.
pub open spec fn with_position(d: Dimensions, pm: PropertyModel, cb: Dimensions) -> Dimensions {
    let margin = EdgeSizes {
        top: px_of(edge_value(pm, "margin-top"@, "margin"@)) as i64,
        bottom: px_of(edge_value(pm, "margin-bottom"@, "margin"@)) as i64,
        ..d.margin
    };
    let border = EdgeSizes {
        top: px_of(edge_value(pm, "border-top-width"@, "border-width"@)) as i64,
        bottom: px_of(edge_value(pm, "border-bottom-width"@, "border-width"@)) as i64,
        ..d.border
    };
    let padding = EdgeSizes {
        top: px_of(edge_value(pm, "padding-top"@, "padding"@)) as i64,
        bottom: px_of(edge_value(pm, "padding-bottom"@, "padding"@)) as i64,
        ..d.padding
    };
    Dimensions {
        content: Rect {
            x: sat_add(
                sat_add(
                    sat_add(cb.content.x as int, margin.left as int),
                    border.left as int,
                ),
                padding.left as int,
            ) as i64,
            y: sat_add(
                sat_add(
                    sat_add(
                        sat_add(cb.content.height as int, cb.content.y as int),
                        margin.top as int,
                    ),
                    border.top as int,
                ),
                padding.top as int,
            ) as i64,
            ..d.content
        },
        padding,
        border,
        margin,
    }
}

/// The geometry `d` with the height that the style `pm` sets, if it sets
/// one as a length.
pub open spec fn with_height(d: Dimensions, pm: PropertyModel) -> Dimensions {
    if pm.contains_key("height"@) && pm["height"@] is Length {
        Dimensions { content: Rect { height: pm["height"@]->Length_0, ..d.content }, ..d }
    } else {
        d
    }
}

/// The geometry `d` of a block after a child with geometry `child` was
/// laid out in it: the content area is higher by the height of the child's
/// margin box.
pub open spec fn grown_by(d: Dimensions, child: Dimensions) -> Dimensions {
    Dimensions {
        content: Rect {
            height: sat_add(d.content.height as int, margin_box_of(child).height as int) as i64,
            ..d.content
        },
        ..d
    }
}

/// The children `kids` of a block with geometry `d`, laid out one below the
/// other, and the geometry of the block after that: each child is laid out
/// in the block as its earlier siblings left it.
pub open spec fn lay_children(kids: Seq<BoxModel>, d: Dimensions) -> (Seq<BoxModel>, Dimensions)
    decreases kids, 0nat,
{
    if kids.len() == 0 {
        (Seq::empty(), d)
    } else {
        let (before, d1) = lay_children(kids.drop_last(), d);
        let child = laid_out(kids.last(), d1);
        (before.push(child), grown_by(d1, child.dimensions))
    }
}

/// The box `b` laid out in the containing block `cb`. A block gets its
/// width, then its position, then its children are laid out, then its
/// height is set; inline and anonymous boxes stay as they are.
pub open spec fn laid_out(b: BoxModel, cb: Dimensions) -> BoxModel
    decreases b, 1nat,
{
    match b.box_type {
        BoxKind::BlockNode(s) => {
            let pm = s.specified_values;
            let placed = with_position(with_width(b.dimensions, pm, cb), pm, cb);
            let (kids, grown) = lay_children(b.children, placed);
            BoxModel { dimensions: with_height(grown, pm), box_type: b.box_type, children: kids }
        },
        _ => b,
    }
}

/// The specified values of the node that a box stands for.
pub open spec fn style_values(kind: BoxKind) -> PropertyModel {
    match kind {
        BoxKind::BlockNode(s) => s.specified_values,
        BoxKind::InlineNode(s) => s.specified_values,
        BoxKind::AnonymousBlock => Map::empty(),
    }
}

impl<'a> LayoutBox<'a> {
    /// Lays out the box and all below it in the containing block: a block
    /// by the rules of block layout, while inline and anonymous boxes are
    /// left as they are.
    pub fn layout(&mut self, containing_block: Dimensions)
        ensures
            final(self)@ == laid_out(old(self)@, containing_block),
            final(self).box_type == old(self).box_type,
            final(self).children@.len() == old(self).children@.len(),
        decreases old(self).children, 2nat,
    {
        proof {
            lemma_box_view(*self);
        }
        match self.box_type {
            BoxType::BlockNode(_) => self.layout_block(containing_block),
            BoxType::InlineNode(_) => {},
            BoxType::AnonymousBlock => {},
        }
    }

    /// Lays out a block: its width, its position, its children, its height,
    /// in this order.
    pub fn layout_block(&mut self, containing_block: Dimensions)
        requires
            old(self).box_type is BlockNode,
        ensures
            final(self)@ == laid_out(old(self)@, containing_block),
            final(self).box_type == old(self).box_type,
            final(self).children@.len() == old(self).children@.len(),
        decreases old(self).children, 1nat,
    {
        proof {
            lemma_box_view(*self);
        }
        self.calculate_block_width(containing_block);
        self.calculate_block_position(containing_block);
        proof {
            lemma_box_view(*self);
        }
        self.layout_block_children();
        self.calculate_block_height();
        proof {
            lemma_box_view(*self);
        }
    }

    /// Sets the width of the content area and the horizontal margins,
    /// borders and paddings, so that the box fits its containing block.
    pub fn calculate_block_width(&mut self, containing_block: Dimensions)
        requires
            !(old(self).box_type is AnonymousBlock),
        ensures
            final(self).dimensions == with_width(
                old(self).dimensions,
                style_values(old(self).box_type@),
                containing_block,
            ),
            final(self).box_type == old(self).box_type,
            final(self).children == old(self).children,
    {
        let style = self.get_style_node();
        let auto = Value::Keyword("auto".to_owned());
        let mut width = match style.value("width") {
            Some(v) => v,
            None => auto.clone(),
        };
        let zero = Value::Length(0, Unit::Px);

        let mut margin_left = style.lookup("margin-left", "margin", &zero);
        let mut margin_right = style.lookup("margin-right", "margin", &zero);

        let border_left = style.lookup("border-left-width", "border-width", &zero);
        let border_right = style.lookup("border-right-width", "border-width", &zero);

        let padding_left = style.lookup("padding-left", "padding", &zero);
        let padding_right = style.lookup("padding-right", "padding", &zero);

        let total = px_add(
            px_add(
                px_add(
                    px_add(px_add(margin_left.to_px(), margin_right.to_px()), border_left.to_px()),
                    border_right.to_px(),
                ),
                padding_left.to_px(),
            ),
            padding_right.to_px(),
        );

        // A box with a set width that is too wide has no margin to share out.
        if !width.is_keyword("auto") && total > containing_block.content.width {
            if margin_left.is_keyword("auto") {
                margin_left = zero.clone();
            }
            if margin_right.is_keyword("auto") {
                margin_right = zero.clone();
            }
        }
        let underflow = px_sub(containing_block.content.width, total);

        match (width.is_keyword("auto"), margin_left.is_keyword("auto"), margin_right.is_keyword("auto")) {
            (false, false, false) => {
                margin_right = Value::Length(px_add(margin_right.to_px(), underflow), Unit::Px);
            },
            (false, false, true) => {
                margin_right = Value::Length(underflow, Unit::Px);
            },
            (false, true, false) => {
                margin_left = Value::Length(underflow, Unit::Px);
            },
            (false, true, true) => {
                margin_left = Value::Length(px_half(underflow), Unit::Px);
                margin_right = Value::Length(px_half(underflow), Unit::Px);
            },
            (true, _, _) => {
                if margin_left.is_keyword("auto") {
                    margin_left = Value::Length(0, Unit::Px);
                }
                if margin_right.is_keyword("auto") {
                    margin_right = Value::Length(0, Unit::Px);
                }
                if underflow >= 0 {
                    width = Value::Length(underflow, Unit::Px);
                } else {
                    width = Value::Length(0, Unit::Px);
                    margin_right = Value::Length(px_add(margin_right.to_px(), underflow), Unit::Px);
                }
            },
        }

        self.dimensions.content.width = width.to_px();

        self.dimensions.padding.left = padding_left.to_px();
        self.dimensions.padding.right = padding_right.to_px();

        self.dimensions.margin.left = margin_left.to_px();
        self.dimensions.margin.right = margin_right.to_px();

        self.dimensions.border.left = border_left.to_px();
        self.dimensions.border.right = border_right.to_px();
    }

    /// Sets the vertical margins, borders and paddings, and places the
    /// content area in the containing block, below what that holds so far.
    pub fn calculate_block_position(&mut self, containing_block: Dimensions)
        requires
            !(old(self).box_type is AnonymousBlock),
        ensures
            final(self).dimensions == with_position(
                old(self).dimensions,
                style_values(old(self).box_type@),
                containing_block,
            ),
            final(self).box_type == old(self).box_type,
            final(self).children == old(self).children,
    {
        let style = self.get_style_node();
        let zero = Value::Length(0, Unit::Px);

        self.dimensions.margin.top = style.lookup("margin-top", "margin", &zero).to_px();
        self.dimensions.margin.bottom = style.lookup("margin-bottom", "margin", &zero).to_px();

        self.dimensions.border.top = style.lookup(
            "border-top-width",
            "border-width",
            &zero,
        ).to_px();
        self.dimensions.border.bottom = style.lookup(
            "border-bottom-width",
            "border-width",
            &zero,
        ).to_px();

        self.dimensions.padding.top = style.lookup("padding-top", "padding", &zero).to_px();
        self.dimensions.padding.bottom = style.lookup("padding-bottom", "padding", &zero).to_px();

        self.dimensions.content.x = px_add(
            px_add(
                px_add(containing_block.content.x, self.dimensions.margin.left),
                self.dimensions.border.left,
            ),
            self.dimensions.padding.left,
        );
        self.dimensions.content.y = px_add(
            px_add(
                px_add(
                    px_add(containing_block.content.height, containing_block.content.y),
                    self.dimensions.margin.top,
                ),
                self.dimensions.border.top,
            ),
            self.dimensions.padding.top,
        );
    }

    /// Sets the height of the content area where the style sets one as a
    /// length; otherwise the height that the children gave stands.
    pub fn calculate_block_height(&mut self)
        requires
            !(old(self).box_type is AnonymousBlock),
        ensures
            final(self).dimensions == with_height(
                old(self).dimensions,
                style_values(old(self).box_type@),
            ),
            final(self).box_type == old(self).box_type,
            final(self).children == old(self).children,
    {
        match self.get_style_node().value("height") {
            Some(Value::Length(h, Unit::Px)) => {
                self.dimensions.content.height = h;
            },
            _ => {},
        }
    }

    /// Lays out the children one below the other, each in the block as its
    /// earlier siblings left it, and adds the height of each to the height
    /// of the block.
    pub fn layout_block_children(&mut self)
        ensures
            (final(self)@.children, final(self).dimensions) == lay_children(
                old(self)@.children,
                old(self).dimensions,
            ),
            final(self).box_type == old(self).box_type,
            final(self).children@.len() == old(self).children@.len(),
        decreases old(self).children, 0nat,
    {
        let n = self.children.len();
        let mut i: usize = 0;
        let ghost kids = old(self)@.children;
        proof {
            lemma_box_view(*self);
            assert(kids.take(0) =~= Seq::empty());
            assert(box_models(self.children@.take(0)) =~= Seq::empty());
        }
        while i < n
            invariant
                n == self.children@.len(),
                n == old(self).children@.len(),
                i <= n,
                kids == box_models(old(self).children@),
                self.box_type == old(self).box_type,
                forall|j: int| i <= j < n ==> self.children@[j] == old(self).children@[j],
                (box_models(self.children@.take(i as int)), self.dimensions) == lay_children(
                    kids.take(i as int),
                    old(self).dimensions,
                ),
            decreases n - i,
        {
            let d = self.dimensions;
            let ghost before = self.children@;
            let child = &mut self.children[i];
            child.layout(d);
            let height = child.dimensions.margin_box().height;
            proof {
                lemma_box_view(*child);
            }
            self.dimensions.content.height = px_add(self.dimensions.content.height, height);
            proof {
                let after = self.children@;
                assert(kids.take(i + 1).drop_last() =~= kids.take(i as int));
                assert(kids.take(i + 1).last() == before[i as int]@);
                assert(box_models(after.take(i + 1)) =~= box_models(before.take(i as int)).push(
                    after[i as int]@,
                ));
            }
            i = i + 1;
        }
        proof {
            lemma_box_view(*self);
            assert(kids.take(n as int) =~= kids);
            assert(self.children@.take(n as int) =~= self.children@);
        }
    }
}

} // verus!
