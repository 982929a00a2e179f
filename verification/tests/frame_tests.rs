use newt::drawing::{Brush, DrawCommandKind, Extent, ShapeKind};
use newt::frame::{draw_list_for, on_window_event, VirtualKey, WindowEventKind};
use newt::layout::{Dimensions, LayoutContext, LayoutItem, Shape, Stack};

#[test]
fn draw_list_for_paints_the_shapes_of_the_tree_in_walk_order() {
    let brush_a = Brush { foreground: 0xFF0000FF, background: 0x00FF00FF };
    let brush_b = Brush { foreground: 0x00FF00FF, background: 0x00FF00FF };
    let dimensions = Dimensions::new(150, 150);
    let inner = Stack::builder()
        .push(LayoutItem::Shape(Shape::new(ShapeKind::Ellipse, brush_b, dimensions)))
        .build();
    let root = Stack::builder()
        .push(LayoutItem::Shape(Shape::new(ShapeKind::Rectangle, brush_a, dimensions)))
        .push(LayoutItem::Stack(inner))
        .push(LayoutItem::Shape(Shape::new(ShapeKind::Line, brush_a, dimensions)))
        .build();
    let render_root = root.layout(&LayoutContext::new(Some(1024), Some(1024)));

    let list = draw_list_for(&render_root);
    assert_eq!(3, list.len());
    assert_eq!(list.command(0).kind, DrawCommandKind::Shape(ShapeKind::Rectangle));
    assert_eq!(list.command(0).common_data.extent, Extent::new(0, 0, 150, 150));
    assert_eq!(list.command(1).kind, DrawCommandKind::Shape(ShapeKind::Ellipse));
    assert_eq!(list.command(1).common_data.extent, Extent::new(0, 150, 150, 150));
    assert_eq!(list.command(1).common_data.brush, brush_b);
    assert_eq!(list.command(2).kind, DrawCommandKind::Shape(ShapeKind::Line));
    assert_eq!(list.command(2).common_data.extent, Extent::new(0, 300, 150, 150));
}

#[test]
fn window_events_end_the_loop_or_force_a_rebuild() {
    assert_eq!(on_window_event(WindowEventKind::KeyboardInput(Some(VirtualKey::Escape))), (true, false));
    assert_eq!(on_window_event(WindowEventKind::KeyboardInput(Some(VirtualKey::Other))), (false, false));
    assert_eq!(on_window_event(WindowEventKind::KeyboardInput(None)), (false, false));
    assert_eq!(on_window_event(WindowEventKind::CloseRequested), (true, false));
    assert_eq!(on_window_event(WindowEventKind::Resized), (false, true));
    assert_eq!(on_window_event(WindowEventKind::Other), (false, false));
}
