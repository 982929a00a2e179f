use newt::drawing::{Brush, ShapeKind};
use newt::layout::{
    Dimensions, LayoutContext, LayoutItem, Position, RenderItem, RenderItemKind, RenderNode,
    RenderSpace, Shape, Stack, Window,
};

fn collect(render_root: &RenderNode) -> Vec<RenderItem> {
    let mut items = Vec::new();
    let mut it = render_root.iter();
    while let Some(item) = it.next() {
        items.push(item);
    }
    items
}

#[test]
fn layoutnode_can_traverse_children_after_layout() {
    let brush = Brush { foreground: 0xFF0000FF, background: 0x00FF00FF };
    let dimensions = Dimensions::new(150, 150);

    let root = Stack::builder()
        .push(LayoutItem::Shape(Shape::new(ShapeKind::Rectangle, brush, dimensions)))
        .push(LayoutItem::Shape(Shape::new(ShapeKind::Rectangle, brush, dimensions)))
        .push(LayoutItem::Shape(Shape::new(ShapeKind::Ellipse, brush, dimensions)))
        .build();

    let render_root = root.layout(&LayoutContext::new(Some(1024), Some(1024)));
    let render_items: Vec<RenderItem> = collect(&render_root);
    let positions: Vec<Position> = render_items.iter().map(|n| n.position).collect();
    let dimensions: Vec<Dimensions> = render_items.iter().map(|n| n.dimensions).collect();

    assert_eq!(4, render_items.len());

    assert_eq!(Some(&Position::new(0, 0)), positions.get(0));
    assert_eq!(Some(&(150, 450).into()), dimensions.get(0));

    assert_eq!(Some(&Position::new(0, 0)), positions.get(1));
    assert_eq!(Some(&Dimensions::new(150, 150)), dimensions.get(1));

    assert_eq!(Some(&Position::new(0, 150)), positions.get(2));
    assert_eq!(Some(&Dimensions::new(150, 150)), dimensions.get(2));

    assert_eq!(Some(&Position::new(0, 300)), positions.get(3));
    assert_eq!(Some(&Dimensions::new(150, 150)), dimensions.get(3));
}

#[test]
fn layoutnode_can_position_one_layer_of_children() {
    let brush = Brush { foreground: 0xFF0000FF, background: 0x00FF00FF };
    let dimensions = Dimensions::new(150, 150);

    let layout_root = Stack::builder()
        .push(LayoutItem::Shape(Shape::new(ShapeKind::Rectangle, brush, dimensions)))
        .push(LayoutItem::Shape(Shape::new(ShapeKind::Rectangle, brush, dimensions)))
        .push(LayoutItem::Shape(Shape::new(ShapeKind::Ellipse, brush, dimensions)))
        .build();

    let render_root = layout_root.layout(&LayoutContext::new(Some(1024), Some(1024)));
    let render_items: Vec<RenderItem> = collect(&render_root);
    let positions: Vec<Position> = render_items.iter().map(|n| n.position).collect();

    assert_eq!(4, render_items.len());
    assert_eq!(Some(&Position::new(0, 0)), positions.get(0));
    assert_eq!(Some(&Position::new(0, 0)), positions.get(1));
    assert_eq!(Some(&Position::new(0, 150)), positions.get(2));
    assert_eq!(Some(&Position::new(0, 300)), positions.get(3));
}

#[test]
fn layoutnode_can_position_nested_children() {
    let brush = Brush { foreground: 0xFF0000FF, background: 0x00FF00FF };
    let dimensions = Dimensions::new(150, 150);

    let layout_root = Stack::builder()
        .push(LayoutItem::Shape(Shape::new(ShapeKind::Rectangle, brush, dimensions)))
        .push(LayoutItem::Stack(
            Stack::builder()
                .push(LayoutItem::Shape(Shape::new(ShapeKind::Ellipse, brush, dimensions)))
                .build(),
        ))
        .push(LayoutItem::Shape(Shape::new(ShapeKind::Rectangle, brush, dimensions)))
        .build();

    let render_root = layout_root.layout(&LayoutContext::new(Some(1024), Some(1024)));
    let render_items: Vec<RenderItem> = collect(&render_root);
    let positions: Vec<Position> = render_items.iter().map(|n| n.position).collect();

    assert_eq!(5, render_items.len());
    assert_eq!(Some(&Position::new(0, 0)), positions.get(0));
    assert_eq!(Some(&Position::new(0, 0)), positions.get(1));
    assert_eq!(Some(&Position::new(0, 150)), positions.get(2));
    assert_eq!(Some(&Position::new(0, 150)), positions.get(3));
    assert_eq!(Some(&Position::new(0, 300)), positions.get(4));
}

#[test]
fn stack_takes_the_widest_width_and_places_children_below_each_other() {
    let brush = Brush { foreground: 1, background: 2 };
    let root = Stack::builder()
        .push(LayoutItem::Shape(Shape::new(ShapeKind::Line, brush, Dimensions::new(10, 5))))
        .push(LayoutItem::Shape(Shape::new(ShapeKind::Ellipse, brush, Dimensions::new(30, 7))))
        .build();

    let node = root.layout(&LayoutContext::new(None, None));

    assert_eq!(node.item.kind, RenderItemKind::Stack);
    assert_eq!(node.item.dimensions, Dimensions::new(30, 12));
    assert_eq!(node.render_space, RenderSpace::new(Position::zero(), Dimensions::new(30, 12)));
    assert_eq!(
        node.children[0].render_space,
        RenderSpace::new(Position::new(0, 0), Dimensions::new(30, 5))
    );
    assert_eq!(
        node.children[1].render_space,
        RenderSpace::new(Position::new(0, 5), Dimensions::new(30, 7))
    );
    assert_eq!(
        node.children[1].item.kind,
        RenderItemKind::Shape { kind: ShapeKind::Ellipse, brush, dimensions: Dimensions::new(30, 7) }
    );
}

#[test]
fn empty_stack_lays_out_to_nothing() {
    let node = Stack::builder().build().layout(&LayoutContext::new(None, None));

    assert_eq!(node.item.dimensions, Dimensions::zero());
    assert_eq!(node.children.len(), 0);
    assert_eq!(collect(&node).len(), 1);
}

#[test]
fn render_space_subsects_vertically() {
    let space = RenderSpace::new(Position::new(3, 4), Dimensions::new(10, 20));

    let (head, tail) = space.subsect_vertically(5);
    assert_eq!(head, RenderSpace::new(Position::new(3, 4), Dimensions::new(10, 5)));
    assert_eq!(tail, RenderSpace::new(Position::new(3, 9), Dimensions::new(10, 15)));

    let (head, tail) = space.subsect_vertically(50);
    assert_eq!(head, RenderSpace::new(Position::new(3, 4), Dimensions::new(10, 20)));
    assert_eq!(tail, RenderSpace::new(Position::new(3, 24), Dimensions::new(10, 0)));
}

#[test]
fn render_space_centers_horizontally() {
    let space = RenderSpace::new(Position::new(2, 4), Dimensions::new(10, 20));

    assert_eq!(space.center_horizontally(4).position, Position::new(5, 4));
    assert_eq!(space.center_horizontally(5).position, Position::new(4, 4));
    assert_eq!(space.center_horizontally(11).position, Position::new(2, 4));
    assert_eq!(space.center_horizontally(4).dimensions, Dimensions::new(10, 20));
}

#[test]
fn window_and_context_keep_their_sizes() {
    let _window = Window::new(640, 480);
    let _context = LayoutContext::new(Some(640), None);
}
