use newt::layout::Dimensions;
use newt::text_item::Text;
use newt::typesetting::{PixelPoint, PixelSize, PixelVector, TypeFace, TypeSet};

/// Glyph 0 is empty; 'a' is glyph 1 with advance 6, 'b' glyph 2 with advance 7, and a
/// carriage return glyph 3 with advance 100.
fn type_set() -> TypeSet {
    let face = |id: u32, advance: i32| {
        TypeFace::new(
            id,
            PixelPoint { x: 0, y: -1 },
            PixelSize { width: 1, height: 1 },
            PixelVector { x: advance, y: 0 },
            vec![1],
        )
    };
    let faces = vec![face(0, 0), face(1, 6), face(2, 7), face(3, 100)];
    TypeSet::new(10, -2, 3, faces, vec![('a', 1), ('b', 2), ('\r', 3)])
}

#[test]
fn text_lays_out_one_run_per_line() {
    let text = Text::new("ab\r\na\n\nbb".to_string(), type_set());
    let (lines, dimensions) = text.layout();
    // Lines: "ab", "a", "", "bb"; the carriage return before a newline is dropped.
    assert_eq!(lines.len(), 4);
    let widths: Vec<u32> = lines.iter().map(|l| l.width()).collect();
    assert_eq!(widths, vec![13, 6, 0, 14]);
    // Every line is one line height (10 + 2 + 3) high.
    for line in lines.iter() {
        assert_eq!(line.height(), 15);
    }
    assert_eq!(dimensions, Dimensions::new(14, 4 * 15));
    // The third line's glyphs are moved down two line heights below the first.
    let placed = lines[3].glyphs();
    assert_eq!(placed[0].1.baseline_offset, PixelPoint { x: 0, y: -1 - 1 - 10 - 3 * 15 });
}

#[test]
fn text_without_final_newline_and_empty_text() {
    let (lines, dimensions) = Text::new("a\n".to_string(), type_set()).layout();
    assert_eq!(lines.len(), 1);
    assert_eq!(dimensions, Dimensions::new(6, 15));
    let (lines, dimensions) = Text::new(String::new(), type_set()).layout();
    assert_eq!(lines.len(), 0);
    assert_eq!(dimensions, Dimensions::new(0, 0));
}
