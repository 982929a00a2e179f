use newt::glyph_lines::{is_whitespace, Advance, CharMetrics, Glyph, GlyphRun, TypeFace, TypeSet};
use newt::layout::Position;
use newt::typesetting::PixelSize;

fn glyph(id: u32, advance: i64, is_newline: bool, is_whitespace: bool) -> Glyph {
    Glyph {
        glyph_id: id,
        offset: Position { x: 1, y: -5 },
        size: PixelSize { width: 4, height: 6 },
        advance: Advance { x: advance, y: 0 },
        is_newline,
        is_whitespace,
    }
}

fn sample_run() -> GlyphRun {
    // "ab\nc d": ascent 10, descent -3, line gap 1: lines are 14 apart.
    GlyphRun::new(
        10,
        -3,
        1,
        vec![
            glyph(1, 6, false, false),
            glyph(2, 7, false, false),
            glyph(3, 0, true, true),
            glyph(4, 5, false, false),
            glyph(5, 3, false, true),
            glyph(6, 8, false, false),
        ],
    )
}

#[test]
fn glyph_run_position_moves_along_the_line_and_breaks_at_newlines() {
    let placed = sample_run().position(Position { x: 100, y: 200 });
    let offsets: Vec<(i64, i64)> = placed.glyphs().iter().map(|g| (g.offset().x, g.offset().y)).collect();
    // Visible glyphs: a, b, c, d. The first line starts at (100, 210); after the newline
    // the cursor is back at x = 100, 14 lower.
    assert_eq!(offsets, vec![(101, 205), (107, 205), (101, 219), (109, 219)]);
}

#[test]
fn glyph_run_glyphs_leaves_out_whitespace() {
    let run = sample_run();
    let ids: Vec<u32> = run.glyphs().iter().map(|g| g.id()).collect();
    assert_eq!(ids, vec![1, 2, 4, 6]);
}

#[test]
fn glyph_run_position_keeps_sizes_and_ids() {
    let placed = sample_run().position(Position { x: 0, y: 0 });
    for g in placed.glyphs() {
        assert_eq!(g.size(), PixelSize { width: 4, height: 6 });
    }
}

#[test]
fn glyph_run_position_translates_with_the_origin() {
    let run = sample_run();
    let a = run.position(Position { x: 0, y: 0 }).glyphs();
    let b = run.position(Position { x: -7, y: 30 }).glyphs();
    for (p, q) in a.iter().zip(b.iter()) {
        assert_eq!(q.offset().x, p.offset().x - 7);
        assert_eq!(q.offset().y, p.offset().y + 30);
    }
}

fn sample_type_set() -> TypeSet {
    // Glyph 0 has no raster; glyphs 1 to 3 have one.
    let faces = vec![
        TypeFace::new(0, PixelSize { width: 0, height: 0 }, vec![]),
        TypeFace::new(1, PixelSize { width: 2, height: 2 }, vec![0, 9, 0, 9]),
        TypeFace::new(2, PixelSize { width: 1, height: 3 }, vec![1, 2, 3]),
        TypeFace::new(3, PixelSize { width: 1, height: 1 }, vec![5]),
    ];
    let metrics = |c: char, glyph_id: u32, advance: i64| CharMetrics {
        c,
        glyph_id,
        raster_origin: Position { x: 0, y: -(glyph_id as i64) },
        advance: Advance { x: advance, y: 0 },
    };
    let chars = vec![
        metrics('a', 1, 6),
        metrics('b', 2, 7),
        metrics(' ', 0, 3),
        metrics('\n', 0, 0),
        metrics('\t', 3, 12),
    ];
    TypeSet::new(10, -3, 1, faces, chars)
}

#[test]
fn type_set_glyph_run_keeps_mapped_glyphs_with_a_raster() {
    let type_set = sample_type_set();
    // 'z' is not mapped; ' ' and '\n' map to a glyph without raster.
    let run = type_set.glyph_run("a b\nz\t");
    let ids: Vec<u32> = run.glyphs().iter().map(|g| g.id()).collect();
    // The tab has a raster here but is whitespace, so glyphs() leaves it out.
    assert_eq!(ids, vec![1, 2]);
    let placed = run.position(Position { x: 0, y: 0 });
    let offsets: Vec<(i64, i64)> = placed.glyphs().iter().map(|g| (g.offset().x, g.offset().y)).collect();
    assert_eq!(offsets, vec![(0, 9), (6, 8)]);
}

#[test]
fn type_set_faces_are_the_ones_with_a_raster() {
    let type_set = sample_type_set();
    let ids: Vec<u32> = type_set.faces().iter().map(|f| f.glyph_id()).collect();
    assert_eq!(ids, vec![1, 2, 3]);
    let face = type_set.faces()[0];
    assert_eq!(face.size(), PixelSize { width: 2, height: 2 });
    assert_eq!(face.as_a8_bytes(), &[0, 9, 0, 9]);
    assert_eq!(face.to_rgba_bytes(1, 2, 3), vec![0, 0, 0, 0, 1, 2, 3, 9, 0, 0, 0, 0, 1, 2, 3, 9]);
}

#[test]
fn unicode_whitespace_is_recognised() {
    for c in [' ', '\t', '\n', '\r', '\u{85}', '\u{a0}', '\u{2003}', '\u{3000}'] {
        assert_eq!(is_whitespace(c), c.is_whitespace());
        assert!(is_whitespace(c));
    }
    for c in ['a', '0', '_', '\u{200b}', 'é'] {
        assert_eq!(is_whitespace(c), c.is_whitespace());
        assert!(!is_whitespace(c));
    }
}
