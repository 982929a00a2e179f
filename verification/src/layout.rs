//! Layout: shapes and vertical stacks of layout items are laid out into a tree of
//! render nodes, each with the space it takes up; walking the tree gives every render
//! item at its absolute position.
use vstd::prelude::*;
use crate::drawing::{Brush, ShapeKind};

verus! {

/// The unit of layout lengths.
pub struct Pixels;

/// A point, in pixels.
#[derive(PartialEq, Eq, Structural, Copy, Clone, Debug)]
pub struct Position {
    pub x: i64,
    pub y: i64,
}

/// A width and a height, in pixels.
#[derive(PartialEq, Eq, Structural, Copy, Clone, Debug)]
pub struct Dimensions {
    pub width: i64,
    pub height: i64,
}

impl Position {
    /// The point `(x, y)`.
    pub fn new(x: i64, y: i64) -> (p: Position)
        ensures
            p == (Position { x, y }),
    {
        Position { x, y }
    }

    /// The origin.
    pub fn zero() -> (p: Position)
        ensures
            p == (Position { x: 0, y: 0 }),
    {
        Position { x: 0, y: 0 }
    }
}

impl Dimensions {
    /// `width` by `height`.
    pub fn new(width: i64, height: i64) -> (d: Dimensions)
        ensures
            d == (Dimensions { width, height }),
    {
        Dimensions { width, height }
    }

    /// No width and no height.
    pub fn zero() -> (d: Dimensions)
        ensures
            d == (Dimensions { width: 0, height: 0 }),
    {
        Dimensions { width: 0, height: 0 }
    }
}

impl From<(i64, i64)> for Dimensions {
    fn from(size: (i64, i64)) -> (d: Dimensions) {
        Dimensions { width: size.0, height: size.1 }
    }
}

impl vstd::std_specs::convert::FromSpecImpl<(i64, i64)> for Dimensions {
    open spec fn obeys_from_spec() -> bool {
        true
    }

    open spec fn from_spec(size: (i64, i64)) -> Dimensions {
        Dimensions { width: size.0, height: size.1 }
    }
}

/// A value fits in an `i64`.
pub open spec fn fits(v: int) -> bool {
    i64::MIN <= v <= i64::MAX
}

/// The smaller of two lengths.
pub open spec fn smaller(a: i64, b: i64) -> i64 {
    if a <= b {
        a
    } else {
        b
    }
}

/// The larger of two lengths.
pub open spec fn larger(a: i64, b: i64) -> i64 {
    if a >= b {
        a
    } else {
        b
    }
}

/// A rectangle of the screen: its top-left corner and its size.
#[derive(PartialEq, Eq, Structural, Copy, Clone, Debug)]
pub struct RenderSpace {
    pub position: Position,
    pub dimensions: Dimensions,
}

/// Splits `space` at `height` from its top: the head keeps the width and takes at most
/// `height`; the tail is what is left below it. `None` where a length would not fit.
pub open spec fn spec_subsect(space: RenderSpace, height: i64) -> Option<(RenderSpace, RenderSpace)> {
    let inner = smaller(space.dimensions.height, height);
    if fits(space.position.y + inner) && fits(space.dimensions.height - inner) {
        Some(
            (
                RenderSpace {
                    position: space.position,
                    dimensions: Dimensions { width: space.dimensions.width, height: inner },
                },
                RenderSpace {
                    position: Position { x: space.position.x, y: (space.position.y + inner) as i64 },
                    dimensions: Dimensions {
                        width: space.dimensions.width,
                        height: (space.dimensions.height - inner) as i64,
                    },
                },
            ),
        )
    } else {
        None
    }
}

impl RenderSpace {
    /// The space at `position` of size `dimensions`.
    pub fn new(position: Position, dimensions: Dimensions) -> (s: RenderSpace)
        ensures
            s == (RenderSpace { position, dimensions }),
    {
        RenderSpace { position, dimensions }
    }

    fn from_dimensions(dimensions: Dimensions) -> (s: RenderSpace)
        ensures
            s == (RenderSpace { position: Position { x: 0, y: 0 }, dimensions }),
    {
        RenderSpace::new(Position::zero(), dimensions)
    }

    /// Splits this space at `height` from its top, into the part above and the part below.
    pub fn subsect_vertically(&self, height: i64) -> (r: (RenderSpace, RenderSpace))
        requires
            spec_subsect(*self, height) is Some,
        ensures
            spec_subsect(*self, height) == Some(r),
    {
        let inner_height = if self.dimensions.height <= height {
            self.dimensions.height
        } else {
            height
        };
        let head_position = self.position;
        let tail_position = Position::new(self.position.x, self.position.y + inner_height);
        let head = RenderSpace {
            position: head_position,
            dimensions: Dimensions::new(self.dimensions.width, inner_height),
        };
        let tail = RenderSpace {
            position: tail_position,
            dimensions: Dimensions::new(self.dimensions.width, self.dimensions.height - inner_height),
        };
        (head, tail)
    }

    /// This space moved right so that something `width` wide sits in its middle; a
    /// space narrower than `width` stays where it is.
    pub fn center_horizontally(&self, width: i64) -> (r: RenderSpace)
        requires
            self.dimensions.width >= width ==> fits(self.dimensions.width - width)
                && fits((self.dimensions.width - width) / 2 + self.position.x),
        ensures
            r.dimensions == self.dimensions,
            self.dimensions.width >= width ==> r.position == (Position {
                x: ((self.dimensions.width - width) / 2 + self.position.x) as i64,
                y: self.position.y,
            }),
            self.dimensions.width < width ==> r.position == self.position,
    {
        let offset = if self.dimensions.width >= width {
            Position::new((self.dimensions.width - width) / 2 + self.position.x, self.position.y)
        } else {
            self.position
        };
        RenderSpace { dimensions: self.dimensions, position: offset }
    }
}

/// The room a layout may take, where it is bounded.
pub struct LayoutContext {
    width: Option<i64>,
    height: Option<i64>,
}

impl LayoutContext {
    /// The bounds, width then height.
    pub closed spec fn bounds(&self) -> (Option<i64>, Option<i64>) {
        (self.width, self.height)
    }

    /// A context bounded by `width` and `height` where they are given.
    pub fn new(width: Option<i64>, height: Option<i64>) -> (c: LayoutContext)
        ensures
            c.bounds() == (width, height),
    {
        LayoutContext { width, height }
    }
}

/// A window of the given size.
pub struct Window {
    width: i64,
    height: i64,
}

impl Window {
    /// The window's width and height.
    pub closed spec fn size(&self) -> (i64, i64) {
        (self.width, self.height)
    }

    /// A window `width` by `height`.
    pub fn new(width: i64, height: i64) -> (w: Window)
        ensures
            w.size() == (width, height),
    {
        Window { width, height }
    }
}

/// What a render item draws.
#[derive(PartialEq, Eq, Structural, Copy, Clone, Debug)]
pub enum RenderItemKind {
    Box { width: i64, height: i64 },
    Stack,
    Shape { kind: ShapeKind, brush: Brush, dimensions: Dimensions },
}

/// Something to draw, where, and how large.
#[derive(PartialEq, Eq, Structural, Copy, Clone, Debug)]
pub struct RenderItem {
    pub kind: RenderItemKind,
    pub position: Position,
    pub dimensions: Dimensions,
}

impl RenderItem {
    /// Where the item is drawn.
    pub fn position(&self) -> (p: Position)
        ensures
            p == self.position,
    {
        self.position
    }

    /// How large the item is drawn.
    pub fn dimensions(&self) -> (d: Dimensions)
        ensures
            d == self.dimensions,
    {
        self.dimensions
    }

    /// What the item draws.
    pub fn kind(&self) -> (k: &RenderItemKind)
        ensures
            *k == self.kind,
    {
        &self.kind
    }
}

/// A laid-out item: what it draws, the space it takes, and its laid-out children.
pub struct RenderNode {
    pub item: RenderItem,
    pub children: Vec<RenderNode>,
    pub render_space: RenderSpace,
}

impl RenderNode {
    /// A node without children.
    pub fn leaf(item: RenderItem, render_space: RenderSpace) -> (n: RenderNode)
        ensures
            n.item == item,
            n.render_space == render_space,
            n.children@.len() == 0,
    {
        RenderNode { item, render_space, children: Vec::new() }
    }

    /// A node with `children`.
    pub fn container(item: RenderItem, render_space: RenderSpace, children: Vec<RenderNode>) -> (n: RenderNode)
        ensures
            n.item == item,
            n.render_space == render_space,
            n.children == children,
    {
        RenderNode { item, render_space, children }
    }
}

/// A shape to lay out.
#[derive(Copy, Clone, Debug)]
pub struct Shape {
    pub kind: ShapeKind,
    pub brush: Brush,
    pub dimensions: Dimensions,
}

/// The size of a stack of items of sizes `ds` is at least as wide as each of them and
/// as nothing, and is as wide as nothing or as one of them.
proof fn lemma_extent_width(ds: Seq<Dimensions>)
    requires
        stack_extent(ds) is Some,
    ensures
        stack_extent(ds)->0.width >= 0,
        forall|j: int| 0 <= j < ds.len() ==> (#[trigger] ds[j]).width <= stack_extent(ds)->0.width,
        stack_extent(ds)->0.width == 0 || exists|j: int| 0 <= j < ds.len() && (#[trigger] ds[j]).width
            == stack_extent(ds)->0.width,
    decreases ds.len(),
{
    if ds.len() > 0 {
        let init = ds.drop_last();
        lemma_extent_width(init);
        let d = stack_extent(init)->0;
        let w = stack_extent(ds)->0.width;
        assert forall|j: int| 0 <= j < ds.len() implies (#[trigger] ds[j]).width <= w by {
            if j < init.len() {
                assert(init[j] == ds[j]);
            }
        }
        if w != 0 {
            if w == ds.last().width {
                assert(ds[ds.len() - 1].width == w);
            } else {
                assert(w == d.width);
                let j = choose|j: int| 0 <= j < init.len() && (#[trigger] init[j]).width == d.width;
                assert(ds[j] == init[j]);
            }
        }
    }
}

/// A laid-out stack is as wide as its widest child, and no narrower than nothing: its
/// width is at least zero and at least the width of every child's layout, and it is zero
/// or the width of one of them.
pub proof fn law_stack_is_as_wide_as_its_widest_child(items: Vec<LayoutItem>, n: RenderNode)
    requires
        stack_lays_out(items, n),
    ensures
        n.item.dimensions.width >= 0,
        forall|j: int|
            0 <= j < n.children@.len() ==> (#[trigger] n.children@[j]).item.dimensions.width
                <= n.item.dimensions.width,
        n.item.dimensions.width == 0 || exists|j: int|
            0 <= j < n.children@.len() && (#[trigger] n.children@[j]).item.dimensions.width
                == n.item.dimensions.width,
{
    let ds = item_dims(n.children@);
    lemma_extent_width(ds);
    assert forall|j: int| 0 <= j < n.children@.len() implies (#[trigger] n.children@[j]).item.dimensions.width
        <= n.item.dimensions.width by {
        assert(ds[j] == n.children@[j].item.dimensions);
    }
    if n.item.dimensions.width != 0 {
        let j = choose|j: int| 0 <= j < ds.len() && (#[trigger] ds[j]).width == stack_extent(ds)->0.width;
        assert(ds[j] == n.children@[j].item.dimensions);
    }
}

impl Shape {
    /// A `kind` shape painted with `brush`, `dimensions` large.
    pub fn new(kind: ShapeKind, brush: Brush, dimensions: Dimensions) -> (s: Shape)
        ensures
            s.kind == kind,
            s.brush == brush,
            s.dimensions == dimensions,
    {
        Shape { kind, brush, dimensions }
    }
}

/// Items laid out one below the other.
pub struct Stack {
    pub children: Vec<LayoutItem>,
}

/// Something that can be laid out: a shape or a stack.
pub enum LayoutItem {
    Shape(Shape),
    Stack(Stack),
}

/// Builds a stack one child at a time.
pub struct StackBuilder {
    stack: Stack,
}

impl StackBuilder {
    /// The children pushed so far.
    pub closed spec fn pushed(&self) -> Seq<LayoutItem> {
        self.stack.children@
    }

    fn new() -> (b: StackBuilder)
        ensures
            b.pushed() == Seq::<LayoutItem>::empty(),
    {
        StackBuilder { stack: Stack { children: Vec::new() } }
    }

    /// Adds `child` below the children pushed so far.
    pub fn push(self, child: LayoutItem) -> (b: StackBuilder)
        ensures
            b.pushed() == self.pushed().push(child),
    {
        let mut builder = self;
        builder.stack.children.push(child);
        builder
    }

    /// The stack of the children pushed.
    pub fn build(self) -> (s: Stack)
        ensures
            s.children@ == self.pushed(),
    {
        self.stack
    }
}

impl Stack {
    /// A builder for a stack, with no children yet.
    pub fn builder() -> (b: StackBuilder)
        ensures
            b.pushed() == Seq::<LayoutItem>::empty(),
    {
        StackBuilder::new()
    }
}

/// The origin.
pub open spec fn origin() -> Position {
    Position { x: 0, y: 0 }
}

/// The space a node takes before its parent places it: at the origin, as large as its item.
pub open spec fn own_space(n: RenderNode) -> RenderSpace {
    RenderSpace { position: origin(), dimensions: n.item.dimensions }
}

/// The sizes of the items of `nodes`.
pub open spec fn item_dims(nodes: Seq<RenderNode>) -> Seq<Dimensions> {
    nodes.map_values(|n: RenderNode| n.item.dimensions)
}

/// The heights of `ds`.
pub open spec fn heights(ds: Seq<Dimensions>) -> Seq<i64> {
    ds.map_values(|d: Dimensions| d.height)
}

/// The size of a stack of items of sizes `ds`: as wide as the widest (and at least
/// zero), as high as all together. `None` where a height would not fit.
pub open spec fn stack_extent(ds: Seq<Dimensions>) -> Option<Dimensions>
    decreases ds.len(),
{
    if ds.len() == 0 {
        Some(Dimensions { width: 0, height: 0 })
    } else {
        match stack_extent(ds.drop_last()) {
            Some(d) => {
                let c = ds.last();
                if fits(d.height + c.height) {
                    Some(Dimensions { width: larger(c.width, d.width), height: (d.height + c.height) as i64 })
                } else {
                    None
                }
            },
            None => None,
        }
    }
}

/// The successive tops of `remaining`, `hs[0]` high, then `hs[1]` high below it, and so
/// on. `None` where a split would not fit.
pub open spec fn stack_heads(hs: Seq<i64>, remaining: RenderSpace) -> Option<Seq<RenderSpace>>
    decreases hs.len(),
{
    if hs.len() == 0 {
        Some(Seq::empty())
    } else {
        match spec_subsect(remaining, hs[0]) {
            Some((head, tail)) => match stack_heads(hs.drop_first(), tail) {
                Some(rest) => Some(seq![head] + rest),
                None => None,
            },
            None => None,
        }
    }
}

/// The size of a stack of items of sizes `ds`, when the stack and every split of it fit.
pub open spec fn stack_size(ds: Seq<Dimensions>) -> Option<Dimensions> {
    match stack_extent(ds) {
        Some(d) => if stack_heads(heights(ds), RenderSpace { position: origin(), dimensions: d }) is Some {
            Some(d)
        } else {
            None
        },
        None => None,
    }
}

/// The size `item` takes when laid out, or `None` where a length would not fit.
pub open spec fn layout_dims(item: LayoutItem) -> Option<Dimensions>
    decreases item, 3int,
{
    match item {
        LayoutItem::Shape(s) => Some(s.dimensions),
        LayoutItem::Stack(st) => stack_layout_dims(st.children),
    }
}

/// The size a stack of `items` takes when laid out.
pub open spec fn stack_layout_dims(items: Vec<LayoutItem>) -> Option<Dimensions>
    decreases items, 2int,
{
    match children_dims(items@) {
        Some(ds) => stack_size(ds),
        None => None,
    }
}

/// The sizes `items` take when laid out, one by one.
pub open spec fn children_dims(items: Seq<LayoutItem>) -> Option<Seq<Dimensions>>
    decreases items, 1int,
{
    if items.len() == 0 {
        Some(Seq::empty())
    } else {
        match (children_dims(items.drop_last()), layout_dims(items.last())) {
            (Some(ds), Some(d)) => Some(ds.push(d)),
            _ => None,
        }
    }
}

/// Whether `n` is the layout of `item`, wherever its parent placed it.
pub open spec fn lays_out(item: LayoutItem, n: RenderNode) -> bool
    decreases item, 3int,
{
    match item {
        LayoutItem::Shape(s) => {
            &&& n.item == (RenderItem {
                kind: RenderItemKind::Shape { kind: s.kind, brush: s.brush, dimensions: s.dimensions },
                position: origin(),
                dimensions: s.dimensions,
            })
            &&& n.children@.len() == 0
        },
        LayoutItem::Stack(st) => stack_lays_out(st.children, n),
    }
}

/// Whether `n` is the layout of a stack of `items`: its children are the layouts of the
/// items, placed one below the other in a space as wide as the widest and as high as all.
pub open spec fn stack_lays_out(items: Vec<LayoutItem>, n: RenderNode) -> bool
    decreases items, 2int,
{
    &&& lay_out_seq(items@, n.children@)
    &&& match stack_extent(item_dims(n.children@)) {
        Some(d) => {
            &&& n.item == (RenderItem { kind: RenderItemKind::Stack, position: origin(), dimensions: d })
            &&& match stack_heads(
                heights(item_dims(n.children@)),
                RenderSpace { position: origin(), dimensions: d },
            ) {
                Some(spaces) => forall|j: int|
                    0 <= j < n.children@.len() ==> #[trigger] n.children@[j].render_space == spaces[j],
                None => false,
            }
        },
        None => false,
    }
}

/// Whether `nodes` are, one by one, the layouts of `items`.
pub open spec fn lay_out_seq(items: Seq<LayoutItem>, nodes: Seq<RenderNode>) -> bool
    decreases items, 1int,
{
    if items.len() == 0 {
        nodes.len() == 0
    } else {
        &&& nodes.len() == items.len()
        &&& lays_out(items.last(), nodes.last())
        &&& lay_out_seq(items.drop_last(), nodes.drop_last())
    }
}

/// The sizes of items laid out one by one are, at each index, the size of that item.
pub proof fn lemma_children_dims_index(items: Seq<LayoutItem>, i: int)
    requires
        children_dims(items) is Some,
        0 <= i < items.len(),
    ensures
        children_dims(items)->0.len() == items.len(),
        layout_dims(items[i]) == Some(children_dims(items)->0[i]),
    decreases items.len(),
{
    lemma_children_dims_len(items.drop_last());
    if i < items.len() - 1 {
        lemma_children_dims_index(items.drop_last(), i);
    }
}

proof fn lemma_children_dims_len(items: Seq<LayoutItem>)
    ensures
        children_dims(items) is Some ==> children_dims(items)->0.len() == items.len(),
    decreases items.len(),
{
    if items.len() > 0 {
        lemma_children_dims_len(items.drop_last());
    }
}

proof fn lemma_stack_heads_len(hs: Seq<i64>, remaining: RenderSpace)
    ensures
        stack_heads(hs, remaining) is Some ==> stack_heads(hs, remaining)->0.len() == hs.len(),
    decreases hs.len(),
{
    if hs.len() > 0 {
        match spec_subsect(remaining, hs[0]) {
            Some((head, tail)) => lemma_stack_heads_len(hs.drop_first(), tail),
            None => {},
        }
    }
}

proof fn lemma_stack_extent_prefix(ds: Seq<Dimensions>, i: int)
    requires
        stack_extent(ds) is Some,
        0 <= i <= ds.len(),
    ensures
        stack_extent(ds.take(i)) is Some,
    decreases ds.len(),
{
    if i < ds.len() {
        assert(ds.drop_last().take(i) =~= ds.take(i));
        lemma_stack_extent_prefix(ds.drop_last(), i);
    } else {
        assert(ds.take(i) =~= ds);
    }
}

proof fn lemma_lays_out_ignores_space(item: LayoutItem, n: RenderNode, m: RenderNode)
    requires
        n.item == m.item,
        n.children == m.children,
    ensures
        lays_out(item, n) == lays_out(item, m),
{
}

proof fn lemma_lay_out_seq_same_nodes(items: Seq<LayoutItem>, a: Seq<RenderNode>, b: Seq<RenderNode>)
    requires
        lay_out_seq(items, a),
        a.len() == b.len(),
        forall|j: int| 0 <= j < a.len() ==> #[trigger] b[j].item == a[j].item && b[j].children == a[j].children,
    ensures
        lay_out_seq(items, b),
    decreases items.len(),
{
    if items.len() > 0 {
        lemma_lays_out_ignores_space(items.last(), a.last(), b.last());
        lemma_lay_out_seq_same_nodes(items.drop_last(), a.drop_last(), b.drop_last());
    }
}

proof fn lemma_lay_out_seq_push(items: Seq<LayoutItem>, nodes: Seq<RenderNode>, item: LayoutItem, node: RenderNode)
    requires
        lay_out_seq(items, nodes),
        lays_out(item, node),
    ensures
        lay_out_seq(items.push(item), nodes.push(node)),
{
    assert(items.push(item).drop_last() =~= items);
    assert(nodes.push(node).drop_last() =~= nodes);
}

/// The sum of `hs`.
pub open spec fn total(hs: Seq<i64>) -> int
    decreases hs.len(),
{
    if hs.len() == 0 {
        0
    } else {
        total(hs.drop_last()) + hs.last()
    }
}

proof fn lemma_total_first(hs: Seq<i64>)
    requires
        hs.len() > 0,
    ensures
        total(hs) == hs[0] + total(hs.drop_first()),
    decreases hs.len(),
{
    if hs.len() > 1 {
        lemma_total_first(hs.drop_last());
        assert(hs.drop_last().drop_first() =~= hs.drop_first().drop_last());
        assert(hs.drop_first().last() == hs.last());
        assert(total(hs.drop_first()) == total(hs.drop_first().drop_last()) + hs.drop_first().last());
    } else {
        assert(hs.drop_first().len() == 0);
        assert(hs.drop_last().len() == 0);
        assert(total(hs.drop_last()) == 0);
        assert(total(hs.drop_first()) == 0);
    }
}

proof fn lemma_total_nonnegative(hs: Seq<i64>, i: int)
    requires
        forall|k: int| 0 <= k < hs.len() ==> hs[k] >= 0,
        0 <= i <= hs.len(),
    ensures
        0 <= total(hs.take(i)) <= total(hs),
    decreases hs.len(),
{
    if hs.len() > 0 {
        if i == hs.len() {
            assert(hs.take(i) =~= hs);
            lemma_total_nonnegative(hs.drop_last(), i - 1);
            assert(hs.drop_last().take(i - 1) =~= hs.drop_last());
        } else {
            lemma_total_nonnegative(hs.drop_last(), i);
            assert(hs.drop_last().take(i) =~= hs.take(i));
        }
    }
}

proof fn lemma_extent_height(ds: Seq<Dimensions>)
    requires
        stack_extent(ds) is Some,
    ensures
        stack_extent(ds)->0.height == total(heights(ds)),
    decreases ds.len(),
{
    if ds.len() > 0 {
        lemma_extent_height(ds.drop_last());
        assert(heights(ds).drop_last() =~= heights(ds.drop_last()));
    }
}

proof fn lemma_heads_of_nonnegative(hs: Seq<i64>, x: i64, p: i64, w: i64)
    requires
        forall|k: int| 0 <= k < hs.len() ==> hs[k] >= 0,
        0 <= p,
        p + total(hs) <= i64::MAX,
    ensures
        stack_heads(hs, RenderSpace { position: Position { x, y: p }, dimensions: Dimensions { width: w, height: total(hs) as i64 } })
            matches Some(spaces) && spaces.len() == hs.len() && forall|j: int| 0 <= j < hs.len() ==> #[trigger] spaces[j] == (RenderSpace {
                position: Position { x, y: (p + total(hs.take(j))) as i64 },
                dimensions: Dimensions { width: w, height: hs[j] },
            }),
    decreases hs.len(),
{
    lemma_total_nonnegative(hs, 0);
    if hs.len() > 0 {
        let rest = hs.drop_first();
        lemma_total_first(hs);
        lemma_total_nonnegative(rest, 0);
        assert(rest.take(rest.len() as int) =~= rest);
        lemma_total_nonnegative(rest, rest.len() as int);
        let space = RenderSpace { position: Position { x, y: p }, dimensions: Dimensions { width: w, height: total(hs) as i64 } };
        assert(smaller(total(hs) as i64, hs[0]) == hs[0]);
        let tail = RenderSpace { position: Position { x, y: (p + hs[0]) as i64 }, dimensions: Dimensions { width: w, height: total(rest) as i64 } };
        assert(spec_subsect(space, hs[0]) == Some((RenderSpace { position: Position { x, y: p }, dimensions: Dimensions { width: w, height: hs[0] } }, tail)));
        lemma_heads_of_nonnegative(rest, x, (p + hs[0]) as i64, w);
        let spaces = stack_heads(hs, space)->0;
        let rest_spaces = stack_heads(rest, tail)->0;
        assert(spaces == seq![RenderSpace { position: Position { x, y: p }, dimensions: Dimensions { width: w, height: hs[0] } }] + rest_spaces);
        assert forall|j: int| 0 <= j < hs.len() implies #[trigger] spaces[j] == (RenderSpace {
            position: Position { x, y: (p + total(hs.take(j))) as i64 },
            dimensions: Dimensions { width: w, height: hs[j] },
        }) by {
            if j == 0 {
                assert(hs.take(0).len() == 0);
            } else {
                assert(spaces[j] == rest_spaces[j - 1]);
                assert(rest[j - 1] == hs[j]);
                lemma_total_first(hs.take(j));
                assert(hs.take(j).drop_first() =~= rest.take(j - 1));
            }
        }
    }
}

/// In the layout of a stack whose children are none of negative height, each child is
/// placed right below the one before it: at the left edge, as far down as the heights
/// of the children before it add up to, as wide as the stack and as high as itself.
pub proof fn law_stack_places_children_one_below_the_other(items: Vec<LayoutItem>, n: RenderNode, j: int)
    requires
        stack_lays_out(items, n),
        0 <= j < n.children@.len(),
        forall|k: int| 0 <= k < n.children@.len() ==> (#[trigger] n.children@[k]).item.dimensions.height >= 0,
    ensures
        n.children@[j].render_space == (RenderSpace {
            position: Position { x: 0, y: total(heights(item_dims(n.children@)).take(j)) as i64 },
            dimensions: Dimensions { width: n.item.dimensions.width, height: n.children@[j].item.dimensions.height },
        }),
{
    let ds = item_dims(n.children@);
    let hs = heights(ds);
    let d = stack_extent(ds)->0;
    lemma_extent_height(ds);
    assert forall|k: int| 0 <= k < hs.len() implies hs[k] >= 0 by {
        assert(hs[k] == n.children@[k].item.dimensions.height);
    }
    lemma_heads_of_nonnegative(hs, 0, 0, d.width);
}

impl Shape {
    /// The shape as a render node: its item at the origin, as large as the shape.
    pub fn layout(&self, context: &LayoutContext) -> (n: RenderNode)
        ensures
            lays_out(LayoutItem::Shape(*self), n),
            n.render_space == own_space(n),
            n.item.dimensions == self.dimensions,
    {
        let render_item = RenderItem {
            kind: RenderItemKind::Shape { kind: self.kind, brush: self.brush, dimensions: self.dimensions },
            position: Position::zero(),
            dimensions: self.dimensions,
        };
        RenderNode::leaf(render_item, RenderSpace::from_dimensions(self.dimensions))
    }
}

impl Stack {
    /// The stack as a render node: its children laid out and placed one below the
    /// other, in a space as wide as the widest child and as high as all together.
    pub fn layout(&self, context: &LayoutContext) -> (n: RenderNode)
        requires
            stack_layout_dims(self.children) is Some,
        ensures
            stack_lays_out(self.children, n),
            n.render_space == own_space(n),
            stack_layout_dims(self.children) == Some(n.item.dimensions),
        decreases self, 0int,
    {
        let ghost items = self.children@;
        let ghost ds = children_dims(items)->0;
        proof {
            lemma_children_dims_len(items);
        }
        let mut dimensions = Dimensions::zero();
        let mut render_children: Vec<RenderNode> = Vec::new();
        let mut i: usize = 0;
        assert(items.take(0) =~= Seq::<LayoutItem>::empty());
        while i < self.children.len()
            invariant
                i <= items.len(),
                items == self.children@,
                children_dims(items) == Some(ds),
                ds.len() == items.len(),
                stack_size(ds) is Some,
                render_children@.len() == i,
                lay_out_seq(items.take(i as int), render_children@),
                forall|j: int|
                    0 <= j < i ==> (#[trigger] render_children@[j]).item.dimensions == ds[j]
                        && render_children@[j].render_space == own_space(render_children@[j]),
                stack_extent(ds.take(i as int)) == Some(dimensions),
            decreases items.len() - i,
        {
            proof {
                lemma_children_dims_index(items, i as int);
                lemma_stack_extent_prefix(ds, i + 1);
                assert(ds.take(i + 1).drop_last() =~= ds.take(i as int));
            }
            let child = self.children[i].layout(context);
            dimensions.width = if child.render_space.dimensions.width >= dimensions.width {
                child.render_space.dimensions.width
            } else {
                dimensions.width
            };
            dimensions.height = dimensions.height + child.render_space.dimensions.height;
            proof {
                lemma_lay_out_seq_push(items.take(i as int), render_children@, items[i as int], child);
                assert(items.take(i + 1) =~= items.take(i as int).push(items[i as int]));
            }
            render_children.push(child);
            i = i + 1;
        }
        proof {
            assert(ds.take(i as int) =~= ds);
            assert(items.take(i as int) =~= items);
            assert(item_dims(render_children@) =~= ds);
        }
        let container_space = RenderSpace { position: Position::zero(), dimensions };
        let mut remaining = container_space;
        let ghost laid = render_children@;
        let ghost hs = heights(ds);
        let ghost spaces = stack_heads(hs, container_space)->0;
        let count = render_children.len();
        let mut pending = render_children;
        let mut placed_children: Vec<RenderNode> = Vec::new();
        let mut k: usize = 0;
        proof {
            lemma_stack_heads_len(hs, container_space);
            assert(hs.subrange(0, count as int) =~= hs);
            assert(spaces.subrange(0, count as int) =~= spaces);
        }
        while k < count
            invariant
                k <= count,
                count == laid.len(),
                hs.len() == count,
                hs == heights(item_dims(laid)),
                stack_heads(hs, container_space) == Some(spaces),
                spaces.len() == count,
                pending@ == laid.subrange(k as int, count as int),
                placed_children@.len() == k,
                forall|j: int|
                    0 <= j < k ==> (#[trigger] placed_children@[j]).item == laid[j].item
                        && placed_children@[j].children == laid[j].children
                        && placed_children@[j].render_space == spaces[j],
                stack_heads(hs.subrange(k as int, count as int), remaining) == Some(
                    spaces.subrange(k as int, count as int),
                ),
            decreases count - k,
        {
            let node = pending.remove(0);
            proof {
                assert(node == laid[k as int]);
                assert(hs.subrange(k as int, count as int)[0] == node.item.dimensions.height);
                assert(hs.subrange(k as int, count as int).drop_first() =~= hs.subrange(k + 1, count as int));
                assert(spaces.subrange(k as int, count as int).drop_first() =~= spaces.subrange(k + 1, count as int));
                assert(pending@ =~= laid.subrange(k + 1, count as int));
            }
            let child_height = node.item.dimensions.height;
            let ghost sub = hs.subrange(k as int, count as int);
            let ghost before = remaining;
            let (head, tail) = remaining.subsect_vertically(child_height);
            proof {
                let rest = stack_heads(sub.drop_first(), tail);
                assert(rest is Some);
                assert(seq![head] + rest->0 == spaces.subrange(k as int, count as int));
                assert((seq![head] + rest->0)[0] == head);
                assert(spaces.subrange(k as int, count as int)[0] == spaces[k as int]);
                assert(rest->0 =~= spaces.subrange(k as int, count as int).drop_first());
            }
            placed_children.push(RenderNode { item: node.item, children: node.children, render_space: head });
            remaining = tail;
            k = k + 1;
        }
        proof {
            lemma_lay_out_seq_same_nodes(items, laid, placed_children@);
            assert(item_dims(placed_children@) =~= item_dims(laid));
        }
        let render_item = RenderItem { kind: RenderItemKind::Stack, position: Position::zero(), dimensions };
        RenderNode::container(render_item, container_space, placed_children)
    }
}

impl LayoutItem {
    /// The item as a render node at the origin.
    pub fn layout(&self, context: &LayoutContext) -> (n: RenderNode)
        requires
            layout_dims(*self) is Some,
        ensures
            lays_out(*self, n),
            n.render_space == own_space(n),
            layout_dims(*self) == Some(n.item.dimensions),
        decreases self, 1int,
    {
        match self {
            LayoutItem::Shape(shape) => shape.layout(context),
            LayoutItem::Stack(stack) => stack.layout(context),
        }
    }
}

/// Where a node placed in a parent drawn at `offset` is drawn.
pub open spec fn drawn_at(n: RenderNode, offset: Position) -> Position {
    Position {
        x: (n.render_space.position.x + offset.x) as i64,
        y: (n.render_space.position.y + offset.y) as i64,
    }
}

/// The position of `n` within a parent drawn at `offset` fits.
pub open spec fn position_fits(n: RenderNode, offset: Position) -> bool {
    fits(n.render_space.position.x + offset.x) && fits(n.render_space.position.y + offset.y)
}

/// The render items of the tree `n`, in pre-order, each at its absolute position: the
/// node's own item where its space is, then its children, each relative to it.
pub open spec fn walk(n: RenderNode, offset: Position) -> Seq<RenderItem>
    decreases n, 0int,
{
    seq![RenderItem { kind: n.item.kind, dimensions: n.render_space.dimensions, position: drawn_at(n, offset) }]
        + walk_seq(n.children@, drawn_at(n, offset))
}

/// The walks of the trees of `ns`, one after the other, all relative to `offset`.
pub open spec fn walk_seq(ns: Seq<RenderNode>, offset: Position) -> Seq<RenderItem>
    decreases ns, 1int,
{
    if ns.len() == 0 {
        Seq::empty()
    } else {
        walk(ns[0], offset) + walk_seq(ns.drop_first(), offset)
    }
}

/// Every absolute position in the tree `n` fits.
pub open spec fn walk_fits(n: RenderNode, offset: Position) -> bool
    decreases n, 0int,
{
    position_fits(n, offset) && walk_seq_fits(n.children@, drawn_at(n, offset))
}

/// Every absolute position in the trees of `ns` fits.
pub open spec fn walk_seq_fits(ns: Seq<RenderNode>, offset: Position) -> bool
    decreases ns, 1int,
{
    if ns.len() == 0 {
        true
    } else {
        walk_fits(ns[0], offset) && walk_seq_fits(ns.drop_first(), offset)
    }
}

/// `s` backwards.
pub open spec fn backwards<A>(s: Seq<A>) -> Seq<A>
    decreases s.len(),
{
    if s.len() == 0 {
        Seq::empty()
    } else {
        backwards(s.drop_first()).push(s[0])
    }
}

/// The render items still to come from a stack of trees and offsets, top first.
pub open spec fn pending_items<'a>(f: Seq<(&'a RenderNode, Position)>) -> Seq<RenderItem>
    decreases f.len(),
{
    if f.len() == 0 {
        Seq::empty()
    } else {
        walk(*f.last().0, f.last().1) + pending_items(f.drop_last())
    }
}

/// Every tree of a stack fits where it is to be drawn.
pub open spec fn pending_fits<'a>(f: Seq<(&'a RenderNode, Position)>) -> bool {
    forall|i: int| 0 <= i < f.len() ==> walk_fits(*(#[trigger] f[i]).0, f[i].1)
}

proof fn lemma_walk_seq_fits_index(ns: Seq<RenderNode>, offset: Position, i: int)
    requires
        walk_seq_fits(ns, offset),
        0 <= i < ns.len(),
    ensures
        walk_fits(ns[i], offset),
    decreases ns.len(),
{
    if i > 0 {
        lemma_walk_seq_fits_index(ns.drop_first(), offset, i - 1);
    }
}

proof fn lemma_pending_push_backwards<'a>(
    base: Seq<(&'a RenderNode, Position)>,
    c: Seq<(&'a RenderNode, Position)>,
    ns: Seq<RenderNode>,
    offset: Position,
)
    requires
        c.len() == ns.len(),
        forall|j: int| 0 <= j < c.len() ==> *(#[trigger] c[j]).0 == ns[j] && c[j].1 == offset,
    ensures
        pending_items(base + backwards(c)) == walk_seq(ns, offset) + pending_items(base),
    decreases c.len(),
{
    if c.len() == 0 {
        assert(base + backwards(c) =~= base);
        assert(Seq::<RenderItem>::empty() + pending_items(base) =~= pending_items(base));
    } else {
        let rest = c.drop_first();
        lemma_pending_push_backwards(base, rest, ns.drop_first(), offset);
        let x = base + backwards(rest);
        assert(base + backwards(c) =~= x.push(c[0]));
        assert(x.push(c[0]).drop_last() =~= x);
        assert(walk_seq(ns, offset) == walk(ns[0], offset) + walk_seq(ns.drop_first(), offset));
        assert(walk(*c[0].0, c[0].1) + (walk_seq(ns.drop_first(), offset) + pending_items(base))
            =~= (walk(ns[0], offset) + walk_seq(ns.drop_first(), offset)) + pending_items(base));
    }
}

/// Walks a render tree in pre-order, giving each render item at its absolute position.
pub struct RenderItemIterator<'a> {
    frontier: Vec<(&'a RenderNode, Position)>,
}

impl<'a> RenderItemIterator<'a> {
    /// The render items still to come, in order.
    pub closed spec fn remaining(&self) -> Seq<RenderItem> {
        pending_items(self.frontier@)
    }

    /// Every position still to be computed fits.
    pub closed spec fn fits(&self) -> bool {
        pending_fits(self.frontier@)
    }

    fn new(node: &'a RenderNode) -> (it: RenderItemIterator<'a>)
        requires
            walk_fits(*node, origin()),
        ensures
            it.fits(),
            it.remaining() == walk(*node, origin()),
    {
        let mut frontier: Vec<(&'a RenderNode, Position)> = Vec::new();
        frontier.push((node, Position::zero()));
        proof {
            let f = frontier@;
            assert(f.drop_last() =~= Seq::<(&'a RenderNode, Position)>::empty());
            assert(f.last() == (node, origin()));
            assert(pending_items(f.drop_last()) == Seq::<RenderItem>::empty());
            assert(walk(*node, origin()) + Seq::<RenderItem>::empty() =~= walk(*node, origin()));
        }
        RenderItemIterator { frontier }
    }

    /// The next render item at its absolute position, or `None` when the walk is over.
    pub fn next(&mut self) -> (r: Option<RenderItem>)
        requires
            old(self).fits(),
        ensures
            final(self).fits(),
            old(self).remaining().len() == 0 ==> r is None && final(self).remaining() == old(self).remaining(),
            old(self).remaining().len() > 0 ==> r == Some(old(self).remaining()[0])
                && final(self).remaining() == old(self).remaining().drop_first(),
    {
        let ghost f = self.frontier@;
        let (next_node, offset) = match self.frontier.pop() {
            Some((next_node, offset)) => (next_node, offset),
            None => {
                return None;
            },
        };
        let ghost base = self.frontier@;
        proof {
            assert(f.drop_last() =~= base);
            assert(walk_fits(*next_node, offset)) by {
                assert(f[f.len() - 1] == (next_node, offset));
            }
        }
        let next_absolute_position = Position::new(
            next_node.render_space.position.x + offset.x,
            next_node.render_space.position.y + offset.y,
        );
        let ghost kids = Seq::new(
            next_node.children@.len(),
            |j: int| (&next_node.children@[j], next_absolute_position),
        );
        let mut j = next_node.children.len();
        while j > 0
            invariant
                j <= next_node.children@.len(),
                kids.len() == next_node.children@.len(),
                kids == Seq::new(
                    next_node.children@.len(),
                    |i: int| (&next_node.children@[i], next_absolute_position),
                ),
                self.frontier@ == base + backwards(kids.subrange(j as int, kids.len() as int)),
            decreases j,
        {
            proof {
                let tail = kids.subrange(j - 1, kids.len() as int);
                assert(tail.drop_first() =~= kids.subrange(j as int, kids.len() as int));
                assert(tail[0] == kids[j - 1]);
            }
            j = j - 1;
            self.frontier.push((&next_node.children[j], next_absolute_position));
            proof {
                assert(self.frontier@ =~= base + backwards(kids.subrange(j as int, kids.len() as int)));
            }
        }
        proof {
            assert(kids.subrange(0, kids.len() as int) =~= kids);
            lemma_backwards_len(kids);
            lemma_pending_push_backwards(base, kids, next_node.children@, next_absolute_position);
            assert(pending_items(f) == walk(*next_node, offset) + pending_items(base));
            assert(next_absolute_position == drawn_at(*next_node, offset));
            assert(pending_items(f).drop_first() =~= walk_seq(next_node.children@, next_absolute_position)
                + pending_items(base));
            assert forall|i: int| 0 <= i < self.frontier@.len() implies walk_fits(
                *(#[trigger] self.frontier@[i]).0,
                self.frontier@[i].1,
            ) by {
                if i < base.len() {
                    assert(self.frontier@[i] == f[i]);
                } else {
                    let b = backwards(kids);
                    lemma_backwards_index(kids, i - base.len());
                    let m = kids.len() - 1 - (i - base.len());
                    assert(self.frontier@[i] == kids[m]);
                    lemma_walk_seq_fits_index(next_node.children@, next_absolute_position, m);
                }
            }
        }
        Some(
            RenderItem {
                kind: next_node.item.kind,
                dimensions: next_node.render_space.dimensions,
                position: next_absolute_position,
            },
        )
    }
}

proof fn lemma_backwards_index<A>(s: Seq<A>, i: int)
    requires
        0 <= i < s.len(),
    ensures
        backwards(s).len() == s.len(),
        backwards(s)[i] == s[s.len() - 1 - i],
    decreases s.len(),
{
    lemma_backwards_len(s.drop_first());
    if i < s.len() - 1 {
        lemma_backwards_index(s.drop_first(), i);
    }
}

proof fn lemma_backwards_len<A>(s: Seq<A>)
    ensures
        backwards(s).len() == s.len(),
    decreases s.len(),
{
    if s.len() > 0 {
        lemma_backwards_len(s.drop_first());
    }
}

impl RenderNode {
    /// The render items of this tree in pre-order, each at its absolute position.
    pub fn iter(&self) -> (it: RenderItemIterator<'_>)
        requires
            walk_fits(*self, origin()),
        ensures
            it.fits(),
            it.remaining() == walk(*self, origin()),
    {
        RenderItemIterator::new(self)
    }
}

} // verus!