use newt::drawing::{
    Brush, DrawCommand, DrawCommandCommonData, DrawCommandKind, DrawList, DrawingOptions, Extent,
    Handle, ShapeKind, TextureRGBA,
};

fn brush() -> Brush {
    Brush { foreground: 0xff0000ff, background: 0x000000ff }
}

#[test]
fn handle_next_hands_out_consecutive_keys() {
    let mut source = Handle::new(5);

    let first = source.next();
    let second = source.next();

    assert_eq!(first, Handle::new(5));
    assert_eq!(second.key, 6);
    assert_eq!(second.generation, 0);
    assert_eq!(source.key, 7);
}

#[test]
fn corners_yield_two_triangles_then_stop() {
    let mut corners = Extent::new(10, 20, 3, 4).corners();

    assert_eq!(corners.next(), Some([10, 20]));
    assert_eq!(corners.next(), Some([13, 20]));
    assert_eq!(corners.next(), Some([10, 24]));
    assert_eq!(corners.next(), Some([13, 20]));
    assert_eq!(corners.next(), Some([13, 24]));
    assert_eq!(corners.next(), Some([10, 24]));
    assert_eq!(corners.next(), None);
    assert_eq!(corners.next(), None);
}

#[test]
fn extent_from_a_size_sits_at_the_origin() {
    assert_eq!(Extent::from((7, 9)), Extent::new(0, 0, 7, 9));
}

#[test]
fn drawing_options_default_to_sixty_four_square() {
    let options = DrawingOptions::default();

    assert_eq!(options.width, 64);
    assert_eq!(options.height, 64);
}

#[test]
fn draw_list_keeps_commands_in_order() {
    let mut list = DrawList::empty();
    let extent = Extent::new(1, 2, 3, 4);

    assert_eq!(list.len(), 0);
    list.push_shape(ShapeKind::Ellipse, brush(), extent);
    list.push_surface(Handle::new(1), brush(), extent);
    list.push_mask(Handle::new(2), brush(), extent);

    assert_eq!(list.len(), 3);
    assert_eq!(
        list.command(0),
        DrawCommand {
            kind: DrawCommandKind::Shape(ShapeKind::Ellipse),
            common_data: DrawCommandCommonData { brush: brush(), extent },
        }
    );
    assert_eq!(list.command(1).kind, DrawCommandKind::Surface(Handle::new(1)));
    assert_eq!(list.command(2).kind, DrawCommandKind::Mask(Handle::new(2)));
}

#[test]
fn draw_list_push_list_appends_after_existing_commands() {
    let mut first = DrawList::empty();
    first.push_shape(ShapeKind::Rectangle, brush(), Extent::new(0, 0, 1, 1));
    let mut second = DrawList::empty();
    second.push_shape(ShapeKind::Line, brush(), Extent::new(0, 0, 2, 2));
    second.push_shape(ShapeKind::Ellipse, brush(), Extent::new(0, 0, 3, 3));

    first.push_list(second);

    assert_eq!(first.len(), 3);
    assert_eq!(first.command(0).kind, DrawCommandKind::Shape(ShapeKind::Rectangle));
    assert_eq!(first.command(1).kind, DrawCommandKind::Shape(ShapeKind::Line));
    assert_eq!(first.command(2).kind, DrawCommandKind::Shape(ShapeKind::Ellipse));
}

#[test]
fn texture_get_pixel_packs_four_bytes() {
    let texture = TextureRGBA::new(2, 1, vec![0x11, 0x22, 0x33, 0x44, 0x55, 0x66]);

    assert_eq!(texture.get_pixel(0, 0), 0x11223344);
    assert_eq!(texture.get_pixel(1, 0), 0x22334455);
    assert_eq!(texture.get_pixel(0, 1), 0x33445566);
}
