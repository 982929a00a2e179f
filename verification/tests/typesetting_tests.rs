use newt::typesetting::{
    GlyphAnalysis, GlyphRun, PixelPoint, PixelSize, PixelVector, TypeFace, TypeSet,
};

/// A small font: glyph 0 draws nothing; the letters of "hello, world" and a space, a
/// comma and a newline each have a glyph, with advance 5 + glyph id.
fn small_type_set() -> TypeSet {
    let chars = ['\n', 'h', 'e', 'l', 'o', ',', ' ', 'w', 'r', 'd'];
    let mut faces = vec![TypeFace::new(
        0,
        PixelPoint { x: 0, y: 0 },
        PixelSize { width: 0, height: 0 },
        PixelVector { x: 0, y: 0 },
        vec![],
    )];
    let mut table = Vec::new();
    for (index, c) in chars.iter().enumerate() {
        let id = index as u32 + 1;
        faces.push(TypeFace::new(
            id,
            PixelPoint { x: 1, y: -(id as i32) },
            PixelSize { width: 2, height: 3 },
            PixelVector { x: 5 + id as i32, y: 0 },
            vec![0, 128, 255, 0, 7, 9],
        ));
        table.push((*c, id));
    }
    TypeSet::new(12, -4, 2, faces, table)
}

fn advance_sum(analyses: &[GlyphAnalysis]) -> u32 {
    analyses.iter().map(|a| a.advance.x as u32).sum()
}

#[test]
fn can_construct_glyphs_from_strings() {
    let type_set = small_type_set();

    let first = type_set.as_glyphs("hello");
    let second = type_set.as_glyphs(", world");

    assert_eq!(5, first.glyphs().len());
    assert_eq!(7, second.glyphs().len());
}

#[test]
fn glyphrun_starts_out_empty() {
    let type_set = small_type_set();

    let glyph_run = GlyphRun::new(type_set.clone());

    assert_eq!(0, glyph_run.width());
    assert_eq!(0, glyph_run.height());
}

#[test]
fn glyphrun_append_text_concatenates_basic_strings() {
    let type_set = small_type_set();

    let mut glyph_run = GlyphRun::new(type_set.clone());

    let first_glyphs = type_set.as_glyphs("hello");
    let first_analysis = type_set.analyze_glyphs(&first_glyphs);

    let second_glyphs = type_set.as_glyphs("world");
    let second_analysis = type_set.analyze_glyphs(&second_glyphs);

    let expected_width: u32 = advance_sum(&first_analysis) + advance_sum(&second_analysis);

    glyph_run.append_text("hello");
    glyph_run.append_text("world");

    assert_eq!(expected_width, glyph_run.width());
}

#[test]
fn glyphrun_append_text_ignores_newlines_concatenates_basic_strings() {
    let type_set = small_type_set();

    let first_glyphs = type_set.as_glyphs("hello\n");
    let first_analysis = type_set.analyze_glyphs(&first_glyphs);

    let second_glyphs = type_set.as_glyphs("\nworld");
    let second_analysis = type_set.analyze_glyphs(&second_glyphs);

    let expected_width: u32 = advance_sum(&first_analysis) + advance_sum(&second_analysis);

    let mut glyph_run = GlyphRun::new(type_set.clone());

    glyph_run.append_text("hello\n");
    glyph_run.append_text("\nworld");

    assert_eq!(expected_width, glyph_run.width());
}

#[test]
fn type_set_maps_characters_to_their_glyphs() {
    let type_set = small_type_set();
    let glyphs = type_set.as_glyphs("held");
    let ids: Vec<u32> = glyphs.glyphs().iter().map(|g| g.id()).collect();
    assert_eq!(ids, vec![2, 3, 4, 10]);
}

#[test]
fn type_set_line_height_is_ascent_less_descent_plus_gap() {
    let type_set = small_type_set();
    assert_eq!(12, type_set.ascent());
    assert_eq!(-4, type_set.descent());
    assert_eq!(2, type_set.line_gap());
    assert_eq!(18, type_set.line_height());
}

#[test]
fn type_set_faces_leave_out_empty_rasters() {
    let type_set = small_type_set();
    let ids: Vec<u32> = type_set.faces().iter().map(|f| f.glyph_id()).collect();
    assert_eq!(ids, (1..=10).collect::<Vec<u32>>());
}

#[test]
fn glyph_analysis_comes_from_the_face() {
    let type_set = small_type_set();
    let glyphs = type_set.as_glyphs("e");
    let analysis = GlyphAnalysis::new(&type_set, glyphs.glyphs()[0]);
    assert_eq!(analysis.bounds, PixelSize { width: 2, height: 3 });
    assert_eq!(analysis.baseline_offset, PixelPoint { x: 1, y: -3 });
    assert_eq!(analysis.advance, PixelVector { x: 8, y: 0 });
    let moved = analysis.with_offset(10, 20);
    assert_eq!(moved.baseline_offset, PixelPoint { x: 11, y: 17 });
    assert_eq!(moved.bounds, analysis.bounds);
}

#[test]
fn glyphrun_places_glyphs_one_after_another() {
    let type_set = small_type_set();
    let mut run = type_set.build_glyph_run();
    run.append_text("he");
    assert_eq!(18, run.height());
    assert_eq!(7 + 8, run.width());

    let glyphs = run.glyphs();
    assert_eq!(2, glyphs.len());
    // The line starts one ascent above the origin; each glyph is moved right to its pen
    // position and down by its own offset.
    assert_eq!(glyphs[0].0.id(), 2);
    assert_eq!(glyphs[0].1.baseline_offset, PixelPoint { x: 1, y: -2 - 2 - 12 });
    assert_eq!(glyphs[1].0.id(), 3);
    assert_eq!(glyphs[1].1.baseline_offset, PixelPoint { x: 1 + 7, y: -3 - 3 - 12 });
}

#[test]
fn glyphrun_set_line_offset_moves_the_line_down() {
    let type_set = small_type_set();
    let mut run = GlyphRun::new(type_set.clone());
    run.append_text("h");
    run.set_line_offset(2);
    let glyphs = run.glyphs();
    assert_eq!(glyphs[0].1.baseline_offset, PixelPoint { x: 1, y: -2 - 2 - 12 - 2 * 18 });
}

#[test]
fn glyphrun_appending_in_parts_equals_appending_whole() {
    let type_set = small_type_set();
    let mut parts = GlyphRun::new(type_set.clone());
    parts.append_text("hello, ");
    parts.append_text("world");
    let mut whole = GlyphRun::new(type_set.clone());
    whole.append_text("hello, world");

    assert_eq!(parts.width(), whole.width());
    assert_eq!(parts.height(), whole.height());
    let a = parts.glyphs();
    let b = whole.glyphs();
    assert_eq!(a.len(), b.len());
    for (x, y) in a.iter().zip(b.iter()) {
        assert_eq!(x.0.id(), y.0.id());
        assert_eq!(x.1, y.1);
    }
}

#[test]
fn type_face_paints_rgba_and_keeps_its_mask() {
    let type_set = small_type_set();
    let faces = type_set.faces();
    let face = faces[0];
    assert_eq!(face.size(), PixelSize { width: 2, height: 3 });
    assert_eq!(face.as_a8_bytes(), &[0, 128, 255, 0, 7, 9]);
    assert_eq!(face.to_mask_bytes(), vec![0, 128, 255, 0, 7, 9]);
    assert_eq!(
        face.to_rgba_bytes(0x11, 0x22, 0x33),
        vec![
            0x00, 0xFF, 0x00, 0xFF, 0x11, 0x22, 0x33, 128, 0x11, 0x22, 0x33, 255, 0x00, 0xFF, 0x00, 0xFF,
            0x11, 0x22, 0x33, 7, 0x11, 0x22, 0x33, 9,
        ]
    );
}
