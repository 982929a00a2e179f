//! Glyph runs laid out over several lines: placing a run from an origin moves a cursor
//! along by each glyph's advance, and back to the start of the next line at a newline.
use vstd::prelude::*;
use crate::layout::Position;
use crate::typesetting::{lemma_pixel_bytes, PixelSize};

verus! {

/// A displacement, in pixels.
#[derive(PartialEq, Eq, Structural, Copy, Clone, Debug)]
pub struct Advance {
    pub x: i64,
    pub y: i64,
}

/// A typeset glyph: its id, where its raster sits, how large the raster is, how far the
/// cursor moves past it, and whether its character is a newline or whitespace.
#[derive(PartialEq, Eq, Structural, Copy, Clone, Debug)]
pub struct Glyph {
    pub glyph_id: u32,
    pub offset: Position,
    pub size: PixelSize,
    pub advance: Advance,
    pub is_newline: bool,
    pub is_whitespace: bool,
}

impl Glyph {
    /// The id of the glyph.
    pub fn id(&self) -> (id: u32)
        ensures
            id == self.glyph_id,
    {
        self.glyph_id
    }

    /// Where the glyph's raster sits.
    pub fn offset(&self) -> (p: Position)
        ensures
            p == self.offset,
    {
        self.offset
    }

    /// The size of the glyph's raster.
    pub fn size(&self) -> (s: PixelSize)
        ensures
            s == self.size,
    {
        self.size
    }
}

/// A run of glyphs with the vertical metrics of their font, in pixels.
pub struct GlyphRun {
    ascent_pixels: i64,
    descent_pixels: i64,
    linegap_pixels: i64,
    glyphs: Vec<Glyph>,
}

/// What a glyph run holds: ascent, descent, line gap, and its glyphs in order.
pub struct GlyphRunModel {
    pub ascent: i64,
    pub descent: i64,
    pub line_gap: i64,
    pub glyphs: Seq<Glyph>,
}

impl View for GlyphRun {
    type V = GlyphRunModel;

    closed spec fn view(&self) -> GlyphRunModel {
        GlyphRunModel {
            ascent: self.ascent_pixels,
            descent: self.descent_pixels,
            line_gap: self.linegap_pixels,
            glyphs: self.glyphs@,
        }
    }
}

impl GlyphRunModel {
    /// The distance from one line to the next: ascent, less descent, plus line gap.
    pub open spec fn line_pitch(self) -> int {
        self.ascent - self.descent + self.line_gap
    }
}

/// The cursor before the `k`-th of `glyphs`, for lines that start at `x0` and a first
/// line at `y0`: each glyph moves it by its advance, and a newline moves it back to
/// `x0`, `pitch` further down.
pub open spec fn cursor_at(glyphs: Seq<Glyph>, x0: int, y0: int, pitch: int, k: int) -> (int, int)
    decreases k,
{
    if k <= 0 {
        (x0, y0)
    } else {
        let c = cursor_at(glyphs, x0, y0, pitch, k - 1);
        let g = glyphs[k - 1];
        if g.is_newline {
            (x0, c.1 + pitch)
        } else {
            (c.0 + g.advance.x, c.1 + g.advance.y)
        }
    }
}

/// The cursor before the `k`-th glyph of `run` placed from `origin`: the first line's
/// cursor starts at the origin, one ascent down.
pub open spec fn run_cursor(run: GlyphRunModel, origin: Position, k: int) -> (int, int) {
    cursor_at(run.glyphs, origin.x as int, origin.y + run.ascent, run.line_pitch(), k)
}

/// `g` moved by `cursor`.
pub open spec fn moved(g: Glyph, cursor: (int, int)) -> Glyph {
    Glyph { offset: Position { x: (g.offset.x + cursor.0) as i64, y: (g.offset.y + cursor.1) as i64 }, ..g }
}

/// The glyphs of `run` placed from `origin`, each moved by the cursor before it.
pub open spec fn positioned(run: GlyphRunModel, origin: Position) -> Seq<Glyph> {
    Seq::new(run.glyphs.len(), |k: int| moved(run.glyphs[k], run_cursor(run, origin, k)))
}

/// Placing `run` from `origin` keeps every cursor and every placed offset within `i64`.
pub open spec fn positioning_fits(run: GlyphRunModel, origin: Position) -> bool {
    &&& i64::MIN <= origin.y + run.ascent <= i64::MAX
    &&& i64::MIN <= run.ascent - run.descent <= i64::MAX
    &&& i64::MIN <= run.line_pitch() <= i64::MAX
    &&& forall|k: int|
        0 <= k <= run.glyphs.len() ==> {
            &&& i64::MIN <= (#[trigger] run_cursor(run, origin, k)).0 <= i64::MAX
            &&& i64::MIN <= run_cursor(run, origin, k).1 <= i64::MAX
        }
    &&& forall|k: int|
        0 <= k < run.glyphs.len() ==> {
            &&& i64::MIN <= (#[trigger] run.glyphs[k]).offset.x + run_cursor(run, origin, k).0 <= i64::MAX
            &&& i64::MIN <= run.glyphs[k].offset.y + run_cursor(run, origin, k).1 <= i64::MAX
        }
}

/// The test that keeps the glyphs that are not whitespace.
pub open spec fn visible() -> spec_fn(Glyph) -> bool {
    |g: Glyph| !g.is_whitespace
}

impl GlyphRun {
    /// A run of `glyphs` set in a font with the given vertical metrics.
    pub fn new(ascent_pixels: i64, descent_pixels: i64, linegap_pixels: i64, glyphs: Vec<Glyph>) -> (run: GlyphRun)
        ensures
            run@ == (GlyphRunModel {
                ascent: ascent_pixels,
                descent: descent_pixels,
                line_gap: linegap_pixels,
                glyphs: glyphs@,
            }),
    {
        GlyphRun { ascent_pixels, descent_pixels, linegap_pixels, glyphs }
    }

    /// This run with its glyphs placed from `origin` (see `positioned`).
    pub fn position(&self, origin: Position) -> (run: GlyphRun)
        requires
            positioning_fits(self@, origin),
        ensures
            run@ == (GlyphRunModel { glyphs: positioned(self@, origin), ..self@ }),
    {
        let ghost model = self@;
        let ghost x0 = origin.x as int;
        let ghost y0 = origin.y + model.ascent;
        let x_start = origin.x;
        let y_start = origin.y + self.ascent_pixels;
        let pixels_per_line = self.ascent_pixels - self.descent_pixels + self.linegap_pixels;
        let mut cursor_x: i64 = x_start;
        let mut cursor_y: i64 = y_start;
        let mut glyphs: Vec<Glyph> = Vec::new();
        let mut k: usize = 0;
        while k < self.glyphs.len()
            invariant
                k <= model.glyphs.len(),
                model == self@,
                x0 == x_start,
                y0 == y_start,
                x0 == origin.x as int,
                y0 == origin.y + model.ascent,
                pixels_per_line == model.line_pitch(),
                positioning_fits(model, origin),
                (cursor_x as int, cursor_y as int) == run_cursor(model, origin, k as int),
                glyphs@ == positioned(model, origin).take(k as int),
            decreases model.glyphs.len() - k,
        {
            let glyph = self.glyphs[k];
            proof {
                assert(model.glyphs[k as int] == glyph);
                let next = run_cursor(model, origin, k + 1);
                assert(i64::MIN <= next.0 <= i64::MAX && i64::MIN <= next.1 <= i64::MAX);
            }
            let next_glyph = Glyph {
                offset: Position { x: glyph.offset.x + cursor_x, y: glyph.offset.y + cursor_y },
                ..glyph
            };
            glyphs.push(next_glyph);
            if glyph.is_newline {
                cursor_x = x_start;
                cursor_y = cursor_y + pixels_per_line;
            } else {
                cursor_x = cursor_x + glyph.advance.x;
                cursor_y = cursor_y + glyph.advance.y;
            }
            proof {
                let all = positioned(model, origin);
                assert(all.take(k + 1) =~= all.take(k as int).push(all[k as int]));
                let before = run_cursor(model, origin, k as int);
                assert(run_cursor(model, origin, k + 1) == if glyph.is_newline {
                    (x0, before.1 + model.line_pitch())
                } else {
                    (before.0 + glyph.advance.x, before.1 + glyph.advance.y)
                });
            }
            k = k + 1;
        }
        proof {
            assert(positioned(model, origin).take(k as int) =~= positioned(model, origin));
        }
        GlyphRun {
            ascent_pixels: self.ascent_pixels,
            descent_pixels: self.descent_pixels,
            linegap_pixels: self.linegap_pixels,
            glyphs,
        }
    }

    /// The glyphs that are not whitespace, in order.
    pub fn glyphs(&self) -> (glyphs: Vec<Glyph>)
        ensures
            glyphs@ == self@.glyphs.filter(visible()),
    {
        let ghost all = self@.glyphs;
        let mut glyphs: Vec<Glyph> = Vec::new();
        assert(all.take(0) =~= Seq::<Glyph>::empty());
        assert(Seq::<Glyph>::empty().filter(visible()) =~= Seq::<Glyph>::empty()) by {
            reveal(Seq::filter);
        }
        let mut i: usize = 0;
        while i < self.glyphs.len()
            invariant
                i <= all.len(),
                all == self@.glyphs,
                glyphs@ == all.take(i as int).filter(visible()),
            decreases all.len() - i,
        {
            let glyph = self.glyphs[i];
            proof {
                assert(all.take(i + 1) =~= all.take(i as int).push(all[i as int]));
                all.take(i as int).lemma_filter_push(all[i as int], visible());
            }
            if !glyph.is_whitespace {
                glyphs.push(glyph);
            }
            i = i + 1;
        }
        assert(all.take(all.len() as int) =~= all);
        glyphs
    }
}

/// Moving the lines' start by (`dx`, `dy`) moves every cursor by the same amount.
proof fn lemma_cursor_translates(glyphs: Seq<Glyph>, x0: int, y0: int, pitch: int, dx: int, dy: int, k: int)
    ensures
        cursor_at(glyphs, x0 + dx, y0 + dy, pitch, k) == ({
            let c = cursor_at(glyphs, x0, y0, pitch, k);
            (c.0 + dx, c.1 + dy)
        }),
    decreases k,
{
    if k > 0 {
        lemma_cursor_translates(glyphs, x0, y0, pitch, dx, dy, k - 1);
    }
}

/// Placing a run from an origin moved by (`dx`, `dy`) places every glyph moved by
/// (`dx`, `dy`).
pub proof fn law_position_translates(run: GlyphRunModel, origin: Position, dx: i64, dy: i64)
    requires
        i64::MIN <= origin.x + dx <= i64::MAX,
        i64::MIN <= origin.y + dy <= i64::MAX,
        positioning_fits(run, origin),
        positioning_fits(run, Position { x: (origin.x + dx) as i64, y: (origin.y + dy) as i64 }),
    ensures
        ({
            let shifted_origin = Position { x: (origin.x + dx) as i64, y: (origin.y + dy) as i64 };
            forall|k: int|
                0 <= k < run.glyphs.len() ==> #[trigger] positioned(run, shifted_origin)[k] == moved(
                    positioned(run, origin)[k],
                    (dx as int, dy as int),
                )
        }),
{
    let shifted_origin = Position { x: (origin.x + dx) as i64, y: (origin.y + dy) as i64 };
    assert forall|k: int| 0 <= k < run.glyphs.len() implies #[trigger] positioned(run, shifted_origin)[k]
        == moved(positioned(run, origin)[k], (dx as int, dy as int)) by {
        lemma_cursor_translates(
            run.glyphs,
            origin.x as int,
            origin.y + run.ascent,
            run.line_pitch(),
            dx as int,
            dy as int,
            k,
        );
    }
}

/// A newline sends the cursor back to the start of the lines, one line pitch further
/// down, whatever came before it on its line.
pub proof fn law_newline_returns_to_line_start(run: GlyphRunModel, origin: Position, k: int)
    requires
        0 <= k < run.glyphs.len(),
        run.glyphs[k].is_newline,
    ensures
        ({
            let y0 = origin.y + run.ascent;
            let before = cursor_at(run.glyphs, origin.x as int, y0, run.line_pitch(), k);
            cursor_at(run.glyphs, origin.x as int, y0, run.line_pitch(), k + 1) == (
                origin.x as int,
                before.1 + run.line_pitch(),
            )
        }),
{
}

/// The characters with the Unicode `White_Space` property.
pub open spec fn unicode_whitespace(c: char) -> bool {
    ||| ('\u{9}' <= c <= '\u{d}')
    ||| c == ' '
    ||| c == '\u{85}'
    ||| c == '\u{a0}'
    ||| c == '\u{1680}'
    ||| ('\u{2000}' <= c <= '\u{200a}')
    ||| c == '\u{2028}'
    ||| c == '\u{2029}'
    ||| c == '\u{202f}'
    ||| c == '\u{205f}'
    ||| c == '\u{3000}'
}

/// Whether `c` is white space in the Unicode sense.
pub fn is_whitespace(c: char) -> (b: bool)
    ensures
        b == unicode_whitespace(c),
{
    ('\u{9}' <= c && c <= '\u{d}') || c == ' ' || c == '\u{85}' || c == '\u{a0}' || c == '\u{1680}' || ('\u{2000}'
        <= c && c <= '\u{200a}') || c == '\u{2028}' || c == '\u{2029}' || c == '\u{202f}' || c == '\u{205f}'
        || c == '\u{3000}'
}

/// The rasterised face of one glyph: its id, the size of its raster, and the raster, one
/// coverage byte per pixel.
pub struct TypeFace {
    glyph_id: u32,
    raster_size: PixelSize,
    bytes: Vec<u8>,
}

/// What a type face holds.
pub struct TypeFaceModel {
    pub glyph_id: u32,
    pub raster_size: PixelSize,
    pub bytes: Seq<u8>,
}

impl View for TypeFace {
    type V = TypeFaceModel;

    closed spec fn view(&self) -> TypeFaceModel {
        TypeFaceModel { glyph_id: self.glyph_id, raster_size: self.raster_size, bytes: self.bytes@ }
    }
}

/// The four bytes, red, green, blue and alpha, that an RGBA raster holds for a pixel of
/// coverage `coverage` painted in (`r`, `g`, `b`): the colour with the coverage as alpha,
/// or nothing at all where the glyph does not cover the pixel.
pub open spec fn rgba_pixel(r: u8, g: u8, b: u8, coverage: u8) -> Seq<u8> {
    if coverage == 0 {
        seq![0u8, 0u8, 0u8, 0u8]
    } else {
        seq![r, g, b, coverage]
    }
}

impl TypeFace {
    /// The face of glyph `glyph_id`, as rasterised by the font library.
    pub fn new(glyph_id: u32, raster_size: PixelSize, bytes: Vec<u8>) -> (face: TypeFace)
        ensures
            face@ == (TypeFaceModel { glyph_id, raster_size, bytes: bytes@ }),
    {
        TypeFace { glyph_id, raster_size, bytes }
    }

    /// The size of the raster.
    pub fn size(&self) -> (s: PixelSize)
        ensures
            s == self@.raster_size,
    {
        self.raster_size
    }

    /// The id of the glyph this face draws.
    pub fn glyph_id(&self) -> (id: u32)
        ensures
            id == self@.glyph_id,
    {
        self.glyph_id
    }

    /// The raster, one coverage byte per pixel.
    pub fn as_a8_bytes(&self) -> (bytes: &[u8])
        ensures
            bytes@ == self@.bytes,
    {
        self.bytes.as_slice()
    }

    /// The raster painted in (`r`, `g`, `b`): four bytes per pixel (see `rgba_pixel`).
    pub fn to_rgba_bytes(&self, r: u8, g: u8, b: u8) -> (rgba: Vec<u8>)
        requires
            self@.bytes.len() * 4 <= usize::MAX,
        ensures
            rgba@.len() == 4 * self@.bytes.len(),
            forall|i: int, j: int|
                0 <= i < self@.bytes.len() && 0 <= j < 4 ==> #[trigger] rgba@[4 * i + j] == rgba_pixel(
                    r,
                    g,
                    b,
                    self@.bytes[i],
                )[j],
    {
        let rgb: u32 = (r as u32) << 24u32 | (g as u32) << 16u32 | (b as u32) << 8u32;
        let mut rgba: Vec<u8> = Vec::new();
        let mut i: usize = 0;
        while i < self.bytes.len()
            invariant
                i <= self.bytes@.len(),
                self.bytes@.len() * 4 <= usize::MAX,
                rgb == (r as u32) << 24u32 | (g as u32) << 16u32 | (b as u32) << 8u32,
                rgba@.len() == 4 * i,
                forall|k: int, j: int|
                    0 <= k < i && 0 <= j < 4 ==> #[trigger] rgba@[4 * k + j] == rgba_pixel(
                        r,
                        g,
                        b,
                        self.bytes@[k],
                    )[j],
            decreases self.bytes@.len() - i,
        {
            let coverage = self.bytes[i];
            let pixel: u32 = if coverage == 0 {
                0u32
            } else {
                rgb | coverage as u32
            };
            proof {
                if coverage == 0 {
                    lemma_pixel_bytes(0u8, 0u8, 0u8, 0u8);
                    assert(0u32 == (0u8 as u32) << 24u32 | (0u8 as u32) << 16u32 | (0u8 as u32) << 8u32 | (0u8 as u32))
                        by (bit_vector);
                } else {
                    lemma_pixel_bytes(r, g, b, coverage);
                }
            }
            let ghost before = rgba@;
            rgba.push((pixel >> 24u32) as u8);
            rgba.push((pixel >> 16u32) as u8);
            rgba.push((pixel >> 8u32) as u8);
            rgba.push(pixel as u8);
            proof {
                assert forall|k: int, j: int| 0 <= k < i + 1 && 0 <= j < 4 implies #[trigger] rgba@[4 * k
                    + j] == rgba_pixel(r, g, b, self.bytes@[k])[j] by {
                    if k < i {
                        assert(rgba@[4 * k + j] == before[4 * k + j]);
                    }
                }
            }
            i = i + 1;
        }
        rgba
    }
}

/// What the font says of a character: the glyph it maps to, where that glyph's raster
/// sits, and how far the cursor moves past it (the font library scales the glyph's
/// advance to pixels, four times over for a tab).
#[derive(PartialEq, Eq, Structural, Copy, Clone, Debug)]
pub struct CharMetrics {
    pub c: char,
    pub glyph_id: u32,
    pub raster_origin: Position,
    pub advance: Advance,
}

/// The metrics of the first entry of `chars` for `c`, if any.
pub open spec fn metrics_for(chars: Seq<CharMetrics>, c: char) -> Option<CharMetrics>
    decreases chars.len(),
{
    if chars.len() == 0 {
        None
    } else if chars[0].c == c {
        Some(chars[0])
    } else {
        metrics_for(chars.drop_first(), c)
    }
}

/// What a type set holds: the vertical metrics of its font in pixels, the face of each
/// glyph by glyph id, and the metrics of each character the font maps.
pub struct TypeSetModel {
    pub ascent: i64,
    pub descent: i64,
    pub line_gap: i64,
    pub faces: Seq<TypeFaceModel>,
    pub chars: Seq<CharMetrics>,
}

impl TypeSetModel {
    /// Faces sit at their glyph ids, every mapped character's glyph has a face, and no
    /// face's raster area overflows a `u32`.
    pub open spec fn wf(self) -> bool {
        &&& forall|i: int| 0 <= i < self.faces.len() ==> #[trigger] self.faces[i].glyph_id == i
        &&& forall|i: int| 0 <= i < self.chars.len() ==> #[trigger] self.chars[i].glyph_id < self.faces.len()
        &&& forall|i: int|
            0 <= i < self.faces.len() ==> #[trigger] self.faces[i].raster_size.width
                * self.faces[i].raster_size.height <= u32::MAX
    }

    /// The glyph that `c` is drawn with: none where the font does not map `c`, or maps it
    /// to a glyph without a raster.
    pub open spec fn glyph_of(self, c: char) -> Option<Glyph> {
        match metrics_for(self.chars, c) {
            None => None,
            Some(m) => {
                let size = self.faces[m.glyph_id as int].raster_size;
                if size.width * size.height > 0 {
                    Some(
                        Glyph {
                            glyph_id: m.glyph_id,
                            offset: m.raster_origin,
                            size,
                            advance: m.advance,
                            is_newline: c == '\n',
                            is_whitespace: unicode_whitespace(c),
                        },
                    )
                } else {
                    None
                }
            },
        }
    }

    /// The glyphs that `text` is drawn with, in order.
    pub open spec fn text_glyphs(self, text: Seq<char>) -> Seq<Glyph>
        decreases text.len(),
    {
        if text.len() == 0 {
            Seq::empty()
        } else {
            let rest = self.text_glyphs(text.drop_last());
            match self.glyph_of(text.last()) {
                Some(g) => rest.push(g),
                None => rest,
            }
        }
    }
}

/// The faces of a font's glyphs and the metrics of its characters, in pixels.
pub struct TypeSet {
    ascent_pixels: i64,
    descent_pixels: i64,
    linegap_pixels: i64,
    faces: Vec<TypeFace>,
    chars: Vec<CharMetrics>,
}

impl View for TypeSet {
    type V = TypeSetModel;

    closed spec fn view(&self) -> TypeSetModel {
        TypeSetModel {
            ascent: self.ascent_pixels,
            descent: self.descent_pixels,
            line_gap: self.linegap_pixels,
            faces: self.faces@.map_values(|f: TypeFace| f@),
            chars: self.chars@,
        }
    }
}

/// The test that picks the faces with a raster.
pub open spec fn rastered() -> spec_fn(TypeFaceModel) -> bool {
    |f: TypeFaceModel| f.raster_size.width * f.raster_size.height > 0
}

impl TypeSet {
    /// A type set from what the font library measured: the vertical metrics of the font,
    /// the face of each glyph in glyph id order, and the metrics of each character.
    pub fn new(
        ascent_pixels: i64,
        descent_pixels: i64,
        linegap_pixels: i64,
        faces: Vec<TypeFace>,
        chars: Vec<CharMetrics>,
    ) -> (type_set: TypeSet)
        requires
            (TypeSetModel {
                ascent: ascent_pixels,
                descent: descent_pixels,
                line_gap: linegap_pixels,
                faces: faces@.map_values(|f: TypeFace| f@),
                chars: chars@,
            }).wf(),
        ensures
            type_set@ == (TypeSetModel {
                ascent: ascent_pixels,
                descent: descent_pixels,
                line_gap: linegap_pixels,
                faces: faces@.map_values(|f: TypeFace| f@),
                chars: chars@,
            }),
    {
        TypeSet { ascent_pixels, descent_pixels, linegap_pixels, faces, chars }
    }

    /// The faces that have a raster with at least one pixel, in glyph id order.
    pub fn faces(&self) -> (faces: Vec<&TypeFace>)
        requires
            self@.wf(),
        ensures
            faces@.map_values(|f: &TypeFace| f@) == self@.faces.filter(rastered()),
    {
        let ghost all = self@.faces;
        let mut faces: Vec<&TypeFace> = Vec::new();
        let mut i: usize = 0;
        assert(all.take(0) =~= Seq::<TypeFaceModel>::empty());
        assert(Seq::<TypeFaceModel>::empty().filter(rastered()) =~= Seq::<TypeFaceModel>::empty()) by {
            reveal(Seq::filter);
        }
        while i < self.faces.len()
            invariant
                i <= all.len(),
                all == self@.faces,
                faces@.map_values(|f: &TypeFace| f@) == all.take(i as int).filter(rastered()),
            decreases all.len() - i,
        {
            let face = &self.faces[i];
            let w = face.raster_size.width;
            let h = face.raster_size.height;
            let ghost before = faces@;
            proof {
                assert(all.take(i + 1) =~= all.take(i as int).push(all[i as int]));
                all.take(i as int).lemma_filter_push(all[i as int], rastered());
                assert((w > 0 && h > 0) == (w * h > 0)) by (nonlinear_arith);
                assert(all[i as int] == face@);
            }
            if w > 0 && h > 0 {
                faces.push(face);
                assert(faces@.map_values(|f: &TypeFace| f@) =~= before.map_values(|f: &TypeFace| f@).push(
                    face@,
                ));
            }
            i = i + 1;
        }
        assert(all.take(all.len() as int) =~= all);
        faces
    }

    /// The metrics of `c`, if the font maps it.
    fn metrics_for_char(&self, c: char) -> (m: Option<CharMetrics>)
        ensures
            m == metrics_for(self@.chars, c),
    {
        let ghost table = self@.chars;
        assert(table.subrange(0, table.len() as int) =~= table);
        let mut i: usize = 0;
        while i < self.chars.len()
            invariant
                i <= table.len(),
                table == self.chars@,
                metrics_for(table, c) == metrics_for(table.subrange(i as int, table.len() as int), c),
            decreases table.len() - i,
        {
            let ghost rest = table.subrange(i as int, table.len() as int);
            assert(rest.drop_first() =~= table.subrange(i + 1, table.len() as int));
            if self.chars[i].c == c {
                return Some(self.chars[i]);
            }
            i = i + 1;
        }
        None
    }

    /// The glyph run of `text`: for each character the font maps to a glyph with a
    /// raster, that glyph, with the character's metrics (see `TypeSetModel::glyph_of`).
    pub fn glyph_run(&self, text: &str) -> (run: GlyphRun)
        requires
            self@.wf(),
        ensures
            run@ == (GlyphRunModel {
                ascent: self@.ascent,
                descent: self@.descent,
                line_gap: self@.line_gap,
                glyphs: self@.text_glyphs(text@),
            }),
    {
        let n = text.unicode_len();
        let mut glyphs: Vec<Glyph> = Vec::new();
        let mut i: usize = 0;
        while i < n
            invariant
                n == text@.len(),
                i <= n,
                self@.wf(),
                glyphs@ == self@.text_glyphs(text@.take(i as int)),
            decreases n - i,
        {
            let c = text.get_char(i);
            proof {
                assert(text@.take(i + 1).drop_last() =~= text@.take(i as int));
                assert(text@.take(i + 1).last() == c);
            }
            match self.metrics_for_char(c) {
                Some(metrics) => {
                    proof {
                        lemma_metrics_in_table(self@.chars, c);
                    }
                    let face = &self.faces[metrics.glyph_id as usize];
                    let size = face.raster_size;
                    proof {
                        assert(self@.faces[metrics.glyph_id as int] == face@);
                        assert((size.width > 0 && size.height > 0) == (size.width * size.height > 0))
                            by (nonlinear_arith);
                    }
                    if size.width > 0 && size.height > 0 {
                        glyphs.push(
                            Glyph {
                                glyph_id: metrics.glyph_id,
                                offset: metrics.raster_origin,
                                size,
                                advance: metrics.advance,
                                is_newline: c == '\n',
                                is_whitespace: is_whitespace(c),
                            },
                        );
                    }
                },
                None => {},
            }
            i = i + 1;
        }
        assert(text@.take(n as int) =~= text@);
        GlyphRun {
            ascent_pixels: self.ascent_pixels,
            descent_pixels: self.descent_pixels,
            linegap_pixels: self.linegap_pixels,
            glyphs,
        }
    }
}

/// The metrics found for a character are an entry of the table.
proof fn lemma_metrics_in_table(chars: Seq<CharMetrics>, c: char)
    requires
        metrics_for(chars, c) is Some,
    ensures
        exists|i: int| 0 <= i < chars.len() && #[trigger] chars[i] == metrics_for(chars, c)->0,
    decreases chars.len(),
{
    if chars[0].c == c {
        assert(chars[0] == metrics_for(chars, c)->0);
    } else {
        lemma_metrics_in_table(chars.drop_first(), c);
        let i = choose|i: int| 0 <= i < chars.drop_first().len() && #[trigger] chars.drop_first()[i]
            == metrics_for(chars.drop_first(), c)->0;
        assert(chars[i + 1] == metrics_for(chars, c)->0);
    }
}

} // verus!
