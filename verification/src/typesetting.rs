//! Typesetting: the faces of a font's glyphs, and runs of glyphs laid out along a line.
//!
//! Rasterising a font is the font library's work; what comes out of it (the metrics of
//! the font, and for each glyph its raster size, offset, advance and bytes, and which
//! glyph each character maps to) is held here as plain values, and everything that is
//! computed from them is verified.
use vstd::prelude::*;

verus! {

/// A point, in whole pixels.
#[derive(PartialEq, Eq, Structural, Copy, Clone, Debug)]
pub struct PixelPoint {
    pub x: i32,
    pub y: i32,
}

/// A size, in whole pixels.
#[derive(PartialEq, Eq, Structural, Copy, Clone, Debug)]
pub struct PixelSize {
    pub width: u32,
    pub height: u32,
}

/// A displacement, in whole pixels.
#[derive(PartialEq, Eq, Structural, Copy, Clone, Debug)]
pub struct PixelVector {
    pub x: i32,
    pub y: i32,
}

/// A glyph of a font, by its id.
#[derive(PartialEq, Eq, Structural, Copy, Clone, Debug)]
pub struct Glyph {
    id: u32,
}

impl View for Glyph {
    type V = u32;

    closed spec fn view(&self) -> u32 {
        self.id
    }
}

impl Glyph {
    /// The id of this glyph.
    pub fn id(&self) -> (id: u32)
        ensures
            id == self@,
    {
        self.id
    }
}

/// Where and how large a glyph is drawn: the size of its raster, the offset of the
/// raster from the pen position, and how far the pen moves on past it.
#[derive(PartialEq, Eq, Structural, Copy, Clone, Debug)]
pub struct GlyphAnalysis {
    pub bounds: PixelSize,
    pub baseline_offset: PixelPoint,
    pub advance: PixelVector,
}

/// `analysis` with its offset moved by (`x`, `y`).
pub open spec fn shifted(analysis: GlyphAnalysis, x: int, y: int) -> GlyphAnalysis {
    GlyphAnalysis {
        baseline_offset: PixelPoint {
            x: (analysis.baseline_offset.x + x) as i32,
            y: (analysis.baseline_offset.y + y) as i32,
        },
        ..analysis
    }
}

/// Moving the offset of `analysis` by (`x`, `y`) stays within `i32`.
pub open spec fn shift_fits(analysis: GlyphAnalysis, x: int, y: int) -> bool {
    &&& i32::MIN <= analysis.baseline_offset.x + x <= i32::MAX
    &&& i32::MIN <= analysis.baseline_offset.y + y <= i32::MAX
}

impl GlyphAnalysis {
    /// This analysis with its offset moved by (`x`, `y`).
    pub fn with_offset(&self, x: i32, y: i32) -> (a: GlyphAnalysis)
        requires
            shift_fits(*self, x as int, y as int),
        ensures
            a == shifted(*self, x as int, y as int),
    {
        GlyphAnalysis {
            baseline_offset: PixelPoint { x: self.baseline_offset.x + x, y: self.baseline_offset.y + y },
            ..*self
        }
    }
}

/// What a type face holds: its glyph id, the offset and size of its raster, its advance
/// and its greyscale raster, one byte per pixel.
pub struct FaceModel {
    pub glyph_id: u32,
    pub raster_offset: PixelPoint,
    pub raster_size: PixelSize,
    pub raster_advance: PixelVector,
    pub bytes: Seq<u8>,
}

/// The rasterised face of one glyph.
pub struct TypeFace {
    glyph_id: u32,
    raster_offset: PixelPoint,
    raster_size: PixelSize,
    raster_advance: PixelVector,
    bytes: Vec<u8>,
}

impl View for TypeFace {
    type V = FaceModel;

    closed spec fn view(&self) -> FaceModel {
        FaceModel {
            glyph_id: self.glyph_id,
            raster_offset: self.raster_offset,
            raster_size: self.raster_size,
            raster_advance: self.raster_advance,
            bytes: self.bytes@,
        }
    }
}

/// The four bytes, red, green, blue and alpha, that an RGBA raster holds for a pixel of
/// coverage `coverage` painted in (`r`, `g`, `b`): the colour with the coverage as alpha,
/// or opaque green where the glyph does not cover the pixel at all.
pub open spec fn rgba_pixel(r: u8, g: u8, b: u8, coverage: u8) -> Seq<u8> {
    if coverage == 0 {
        seq![0x00u8, 0xFFu8, 0x00u8, 0xFFu8]
    } else {
        seq![r, g, b, coverage]
    }
}

/// Bits 24 to 31, 16 to 23, 8 to 15 and 0 to 7 of a pixel `r << 24 | g << 16 | b << 8 | a`
/// are `r`, `g`, `b` and `a`.
pub(crate) proof fn lemma_pixel_bytes(r: u8, g: u8, b: u8, a: u8)
    ensures
        ({
            let pixel: u32 = (r as u32) << 24u32 | (g as u32) << 16u32 | (b as u32) << 8u32 | (a as u32);
            &&& (pixel >> 24u32) as u8 == r
            &&& (pixel >> 16u32) as u8 == g
            &&& (pixel >> 8u32) as u8 == b
            &&& pixel as u8 == a
        }),
{
    assert(((r as u32) << 24u32 | (g as u32) << 16u32 | (b as u32) << 8u32 | (a as u32)) >> 24u32
        == r as u32) by (bit_vector);
    assert((((r as u32) << 24u32 | (g as u32) << 16u32 | (b as u32) << 8u32 | (a as u32)) >> 16u32) as u8
        == g) by (bit_vector);
    assert((((r as u32) << 24u32 | (g as u32) << 16u32 | (b as u32) << 8u32 | (a as u32)) >> 8u32) as u8
        == b) by (bit_vector);
    assert(((r as u32) << 24u32 | (g as u32) << 16u32 | (b as u32) << 8u32 | (a as u32)) as u8 == a)
        by (bit_vector);
}

impl TypeFace {
    /// A face for glyph `glyph_id`, as rasterised by the font library.
    pub fn new(
        glyph_id: u32,
        raster_offset: PixelPoint,
        raster_size: PixelSize,
        raster_advance: PixelVector,
        bytes: Vec<u8>,
    ) -> (face: TypeFace)
        ensures
            face@ == (FaceModel { glyph_id, raster_offset, raster_size, raster_advance, bytes: bytes@ }),
    {
        TypeFace { glyph_id, raster_offset, raster_size, raster_advance, bytes }
    }

    /// The size of the raster.
    pub fn size(&self) -> (s: PixelSize)
        ensures
            s == self@.raster_size,
    {
        self.raster_size
    }

    /// The id of the glyph this face draws.
    pub fn glyph_id(&self) -> (id: u32)
        ensures
            id == self@.glyph_id,
    {
        self.glyph_id
    }

    /// The raster, one coverage byte per pixel.
    pub fn as_a8_bytes(&self) -> (bytes: &[u8])
        ensures
            bytes@ == self@.bytes,
    {
        self.bytes.as_slice()
    }

    /// The raster painted in (`r`, `g`, `b`): four bytes per pixel (see `rgba_pixel`).
    pub fn to_rgba_bytes(&self, r: u8, g: u8, b: u8) -> (rgba: Vec<u8>)
        requires
            self@.bytes.len() * 4 <= usize::MAX,
        ensures
            rgba@.len() == 4 * self@.bytes.len(),
            forall|i: int, j: int|
                0 <= i < self@.bytes.len() && 0 <= j < 4 ==> #[trigger] rgba@[4 * i + j] == rgba_pixel(
                    r,
                    g,
                    b,
                    self@.bytes[i],
                )[j],
    {
        let rgb: u32 = (r as u32) << 24u32 | (g as u32) << 16u32 | (b as u32) << 8u32;
        let mut rgba: Vec<u8> = Vec::new();
        let mut i: usize = 0;
        while i < self.bytes.len()
            invariant
                i <= self.bytes@.len(),
                self.bytes@.len() * 4 <= usize::MAX,
                rgb == (r as u32) << 24u32 | (g as u32) << 16u32 | (b as u32) << 8u32,
                rgba@.len() == 4 * i,
                forall|k: int, j: int|
                    0 <= k < i && 0 <= j < 4 ==> #[trigger] rgba@[4 * k + j] == rgba_pixel(
                        r,
                        g,
                        b,
                        self.bytes@[k],
                    )[j],
            decreases self.bytes@.len() - i,
        {
            let coverage = self.bytes[i];
            let pixel: u32 = if coverage == 0 {
                0x00FF00FFu32
            } else {
                rgb | coverage as u32
            };
            proof {
                if coverage == 0 {
                    lemma_pixel_bytes(0x00u8, 0xFFu8, 0x00u8, 0xFFu8);
                    assert(0x00FF00FFu32 == (0x00u8 as u32) << 24u32 | (0xFFu8 as u32) << 16u32 | (0x00u8 as u32)
                        << 8u32 | (0xFFu8 as u32)) by (bit_vector);
                } else {
                    lemma_pixel_bytes(r, g, b, coverage);
                }
            }
            let ghost before = rgba@;
            rgba.push((pixel >> 24u32) as u8);
            rgba.push((pixel >> 16u32) as u8);
            rgba.push((pixel >> 8u32) as u8);
            rgba.push(pixel as u8);
            proof {
                assert forall|k: int, j: int| 0 <= k < i + 1 && 0 <= j < 4 implies #[trigger] rgba@[4 * k
                    + j] == rgba_pixel(r, g, b, self.bytes@[k])[j] by {
                    if k < i {
                        assert(rgba@[4 * k + j] == before[4 * k + j]);
                    }
                }
            }
            i = i + 1;
        }
        rgba
    }

    /// A copy of the raster, one coverage byte per pixel.
    pub fn to_mask_bytes(&self) -> (bytes: Vec<u8>)
        ensures
            bytes@ == self@.bytes,
    {
        let bytes = self.bytes.clone();
        assert(bytes@ =~= self.bytes@);
        bytes
    }
}

impl Clone for TypeFace {
    fn clone(&self) -> (face: TypeFace)
        ensures
            face@ == self@,
    {
        let bytes = self.bytes.clone();
        assert(bytes@ =~= self.bytes@);
        TypeFace {
            glyph_id: self.glyph_id,
            raster_offset: self.raster_offset,
            raster_size: self.raster_size,
            raster_advance: self.raster_advance,
            bytes,
        }
    }
}

/// The glyph that `c` maps to: the first entry of `table` for `c`, if any.
pub open spec fn glyph_for(table: Seq<(char, u32)>, c: char) -> Option<u32>
    decreases table.len(),
{
    if table.len() == 0 {
        None
    } else if table[0].0 == c {
        Some(table[0].1)
    } else {
        glyph_for(table.drop_first(), c)
    }
}

/// Every character of `text` maps to a glyph.
pub open spec fn maps_text(table: Seq<(char, u32)>, text: Seq<char>) -> bool {
    forall|i: int| 0 <= i < text.len() ==> glyph_for(table, #[trigger] text[i]) is Some
}

/// The glyphs that the characters of `text` map to, in order.
pub open spec fn glyph_ids(table: Seq<(char, u32)>, text: Seq<char>) -> Seq<u32> {
    text.map_values(|c: char| glyph_for(table, c)->0)
}

/// What a glyph's face says of how the glyph is drawn.
pub open spec fn analysis_of(face: FaceModel) -> GlyphAnalysis {
    GlyphAnalysis { bounds: face.raster_size, baseline_offset: face.raster_offset, advance: face.raster_advance }
}

/// Whether a face has a raster with at least one pixel.
pub open spec fn has_raster(face: FaceModel) -> bool {
    face.raster_size.width * face.raster_size.height > 0
}

/// The test that picks the faces with a raster.
pub open spec fn rastered() -> spec_fn(FaceModel) -> bool {
    |f: FaceModel| has_raster(f)
}

/// What a type set holds: the ascent, descent and line gap of its font in pixels, the
/// face of each glyph (by glyph id), and which glyph each character maps to.
pub struct TypeSetModel {
    pub ascent: i32,
    pub descent: i32,
    pub line_gap: i32,
    pub faces: Seq<FaceModel>,
    pub char_glyphs: Seq<(char, u32)>,
}

impl TypeSetModel {
    /// The face of each glyph sits at its glyph id, and every character maps to a glyph
    /// that has a face.
    pub open spec fn wf(self) -> bool {
        &&& forall|i: int| 0 <= i < self.faces.len() ==> #[trigger] self.faces[i].glyph_id == i
        &&& forall|i: int|
            0 <= i < self.char_glyphs.len() ==> #[trigger] self.char_glyphs[i].1 < self.faces.len()
    }

    /// The distance between the baselines of two lines: ascent, less descent, plus gap.
    pub open spec fn line_height(self) -> int {
        self.ascent - self.descent + self.line_gap
    }

    /// How the glyphs of `text` are drawn, in order.
    pub open spec fn text_analyses(self, text: Seq<char>) -> Seq<GlyphAnalysis> {
        glyph_ids(self.char_glyphs, text).map_values(|id: u32| analysis_of(self.faces[id as int]))
    }
}

/// A glyph id maps only to ids that the table holds.
proof fn lemma_glyph_for_in_table(table: Seq<(char, u32)>, c: char)
    requires
        glyph_for(table, c) is Some,
    ensures
        exists|i: int| 0 <= i < table.len() && #[trigger] table[i].1 == glyph_for(table, c)->0,
    decreases table.len(),
{
    if table[0].0 == c {
        assert(table[0].1 == glyph_for(table, c)->0);
    } else {
        lemma_glyph_for_in_table(table.drop_first(), c);
        let i = choose|i: int| 0 <= i < table.drop_first().len() && #[trigger] table.drop_first()[i].1
            == glyph_for(table.drop_first(), c)->0;
        assert(table[i + 1].1 == glyph_for(table, c)->0);
    }
}

/// The glyphs that a character sequence maps to.
pub struct Glyphs {
    glyphs: Vec<Glyph>,
}

impl View for Glyphs {
    type V = Seq<u32>;

    closed spec fn view(&self) -> Seq<u32> {
        self.glyphs@.map_values(|g: Glyph| g@)
    }
}

impl Glyphs {
    /// The glyphs, in order.
    pub fn glyphs(&self) -> (glyphs: &[Glyph])
        ensures
            glyphs@.map_values(|g: Glyph| g@) == self@,
    {
        self.glyphs.as_slice()
    }
}

/// The metrics and glyph faces of a font at one size.
pub struct TypeSet {
    ascent: i32,
    descent: i32,
    line_gap: i32,
    faces: Vec<TypeFace>,
    char_glyphs: Vec<(char, u32)>,
}

impl View for TypeSet {
    type V = TypeSetModel;

    closed spec fn view(&self) -> TypeSetModel {
        TypeSetModel {
            ascent: self.ascent,
            descent: self.descent,
            line_gap: self.line_gap,
            faces: self.faces@.map_values(|f: TypeFace| f@),
            char_glyphs: self.char_glyphs@,
        }
    }
}

fn copy_table(table: &Vec<(char, u32)>) -> (copy: Vec<(char, u32)>)
    ensures
        copy@ == table@,
{
    let mut copy: Vec<(char, u32)> = Vec::new();
    let mut i: usize = 0;
    while i < table.len()
        invariant
            i <= table@.len(),
            copy@ == table@.take(i as int),
        decreases table@.len() - i,
    {
        copy.push(table[i]);
        assert(copy@ =~= table@.take(i + 1));
        i = i + 1;
    }
    assert(table@.take(i as int) =~= table@);
    copy
}

impl Clone for TypeSet {
    fn clone(&self) -> (type_set: TypeSet)
        ensures
            type_set@ == self@,
    {
        let faces = self.faces.clone();
        let char_glyphs = copy_table(&self.char_glyphs);
        let type_set = TypeSet {
            ascent: self.ascent,
            descent: self.descent,
            line_gap: self.line_gap,
            faces,
            char_glyphs,
        };
        assert(type_set@.faces =~= self@.faces);
        assert(type_set@.char_glyphs =~= self@.char_glyphs);
        type_set
    }
}

impl TypeSet {
    /// A type set from a font's metrics in pixels, the face of each of its glyphs in
    /// glyph id order, and the glyph each character maps to.
    pub fn new(ascent: i32, descent: i32, line_gap: i32, faces: Vec<TypeFace>, char_glyphs: Vec<(char, u32)>) -> (type_set: TypeSet)
        requires
            forall|i: int| 0 <= i < faces@.len() ==> #[trigger] faces@[i]@.glyph_id == i,
            forall|i: int| 0 <= i < char_glyphs@.len() ==> #[trigger] char_glyphs@[i].1 < faces@.len(),
        ensures
            type_set@.wf(),
            type_set@ == (TypeSetModel {
                ascent,
                descent,
                line_gap,
                faces: faces@.map_values(|f: TypeFace| f@),
                char_glyphs: char_glyphs@,
            }),
    {
        TypeSet { ascent, descent, line_gap, faces, char_glyphs }
    }

    /// The ascent of the font, in pixels.
    pub fn ascent(&self) -> (a: i32)
        ensures
            a == self@.ascent,
    {
        self.ascent
    }

    /// The descent of the font, in pixels.
    pub fn descent(&self) -> (d: i32)
        ensures
            d == self@.descent,
    {
        self.descent
    }

    /// The gap between lines, in pixels.
    pub fn line_gap(&self) -> (g: i32)
        ensures
            g == self@.line_gap,
    {
        self.line_gap
    }

    /// The distance between the baselines of two lines, in pixels.
    pub fn line_height(&self) -> (h: i32)
        requires
            i32::MIN <= self@.ascent - self@.descent <= i32::MAX,
            i32::MIN <= self@.line_height() <= i32::MAX,
        ensures
            h == self@.line_height(),
    {
        self.ascent - self.descent + self.line_gap
    }

    /// The glyph that `c` maps to, if any.
    fn glyph_for_char(&self, c: char) -> (id: Option<u32>)
        ensures
            id == glyph_for(self@.char_glyphs, c),
    {
        let ghost table = self@.char_glyphs;
        assert(table.subrange(0, table.len() as int) =~= table);
        let mut i: usize = 0;
        while i < self.char_glyphs.len()
            invariant
                i <= table.len(),
                table == self.char_glyphs@,
                glyph_for(table, c) == glyph_for(table.subrange(i as int, table.len() as int), c),
            decreases table.len() - i,
        {
            let ghost rest = table.subrange(i as int, table.len() as int);
            assert(rest.drop_first() =~= table.subrange(i + 1, table.len() as int));
            if self.char_glyphs[i].0 == c {
                return Some(self.char_glyphs[i].1);
            }
            i = i + 1;
        }
        None
    }

    /// The glyphs that the characters of `text` map to; every character must map to one.
    pub fn as_glyphs(&self, text: &str) -> (glyphs: Glyphs)
        requires
            maps_text(self@.char_glyphs, text@),
        ensures
            glyphs@ == glyph_ids(self@.char_glyphs, text@),
    {
        let n = text.unicode_len();
        let mut glyphs: Vec<Glyph> = Vec::new();
        let mut i: usize = 0;
        while i < n
            invariant
                n == text@.len(),
                i <= n,
                maps_text(self@.char_glyphs, text@),
                glyphs@.map_values(|g: Glyph| g@) == glyph_ids(self@.char_glyphs, text@).take(i as int),
            decreases n - i,
        {
            let c = text.get_char(i);
            let id = self.glyph_for_char(c);
            assert(glyph_for(self@.char_glyphs, text@[i as int]) is Some);
            let glyph = Glyph { id: id.unwrap() };
            let ghost before = glyphs@;
            glyphs.push(glyph);
            proof {
                let ids = glyph_ids(self@.char_glyphs, text@);
                assert(glyph@ == ids[i as int]);
                assert(glyphs@.map_values(|g: Glyph| g@) =~= before.map_values(|g: Glyph| g@).push(glyph@));
                assert(ids.take(i + 1) =~= ids.take(i as int).push(ids[i as int]));
            }
            i = i + 1;
        }
        assert(glyph_ids(self@.char_glyphs, text@).take(n as int) =~= glyph_ids(self@.char_glyphs, text@));
        Glyphs { glyphs }
    }

    /// How each of `glyphs` is drawn, from its face.
    pub fn analyze_glyphs(&self, glyphs: &Glyphs) -> (analyses: Vec<GlyphAnalysis>)
        requires
            forall|i: int| 0 <= i < glyphs@.len() ==> #[trigger] glyphs@[i] < self@.faces.len(),
        ensures
            analyses@ == glyphs@.map_values(|id: u32| analysis_of(self@.faces[id as int])),
    {
        let mut analyses: Vec<GlyphAnalysis> = Vec::new();
        let mut i: usize = 0;
        while i < glyphs.glyphs.len()
            invariant
                i <= glyphs@.len(),
                glyphs@.len() == glyphs.glyphs@.len(),
                forall|k: int| 0 <= k < glyphs@.len() ==> #[trigger] glyphs@[k] < self@.faces.len(),
                analyses@ == glyphs@.map_values(|id: u32| analysis_of(self@.faces[id as int])).take(i as int),
            decreases glyphs@.len() - i,
        {
            assert(glyphs@[i as int] == glyphs.glyphs@[i as int]@);
            let analysis = GlyphAnalysis::new(self, glyphs.glyphs[i]);
            analyses.push(analysis);
            assert(analyses@ =~= glyphs@.map_values(|id: u32| analysis_of(self@.faces[id as int])).take(i + 1));
            i = i + 1;
        }
        assert(glyphs@.map_values(|id: u32| analysis_of(self@.faces[id as int])).take(i as int)
            =~= glyphs@.map_values(|id: u32| analysis_of(self@.faces[id as int])));
        analyses
    }

    /// The faces that have a raster with at least one pixel, in glyph id order.
    pub fn faces(&self) -> (faces: Vec<&TypeFace>)
        requires
            forall|i: int| 0 <= i < self@.faces.len() ==> #[trigger] self@.faces[i].raster_size.width
                * self@.faces[i].raster_size.height <= u32::MAX,
        ensures
            faces@.map_values(|f: &TypeFace| f@) == self@.faces.filter(rastered()),
    {
        let ghost all = self@.faces;
        let mut faces: Vec<&TypeFace> = Vec::new();
        let mut i: usize = 0;
        assert(all.take(0) =~= Seq::<FaceModel>::empty());
        assert(Seq::<FaceModel>::empty().filter(rastered()) =~= Seq::<FaceModel>::empty()) by {
            reveal(Seq::filter);
        }
        while i < self.faces.len()
            invariant
                i <= all.len(),
                all == self@.faces,
                faces@.map_values(|f: &TypeFace| f@) == all.take(i as int).filter(rastered()),
            decreases all.len() - i,
        {
            let face = &self.faces[i];
            let w = face.raster_size.width;
            let h = face.raster_size.height;
            let ghost before = faces@;
            proof {
                assert(all.take(i + 1) =~= all.take(i as int).push(all[i as int]));
                all.take(i as int).lemma_filter_push(all[i as int], rastered());
                assert((w > 0 && h > 0) == (w * h > 0)) by (nonlinear_arith);
                assert(all[i as int] == face@);
            }
            if w > 0 && h > 0 {
                faces.push(face);
                assert(faces@.map_values(|f: &TypeFace| f@) =~= before.map_values(|f: &TypeFace| f@).push(
                    face@,
                ));
            }
            i = i + 1;
        }
        assert(all.take(all.len() as int) =~= all);
        faces
    }
}

impl GlyphAnalysis {
    /// How `glyph` is drawn, from its face in `type_set`.
    pub fn new(type_set: &TypeSet, glyph: Glyph) -> (analysis: GlyphAnalysis)
        requires
            glyph@ < type_set@.faces.len(),
        ensures
            analysis == analysis_of(type_set@.faces[glyph@ as int]),
    {
        let face = &type_set.faces[glyph.id as usize];
        GlyphAnalysis { bounds: face.raster_size, baseline_offset: face.raster_offset, advance: face.raster_advance }
    }
}

/// How far the pen moves past the glyphs drawn as `analyses`: the sum of their
/// horizontal advances, each taken as a `u32`.
pub open spec fn advance_total(analyses: Seq<GlyphAnalysis>) -> int
    decreases analyses.len(),
{
    if analyses.len() == 0 {
        0
    } else {
        advance_total(analyses.drop_last()) + (analyses.last().advance.x as u32)
    }
}

/// The pen position before the `k`-th of `analyses`, starting from `start`.
pub open spec fn pen_at(start: int, analyses: Seq<GlyphAnalysis>, k: int) -> int {
    start + advance_total(analyses.take(k))
}

/// The pen position before the `k`-th of `analyses` as the offset it is drawn at.
pub open spec fn pen_offset(start: int, analyses: Seq<GlyphAnalysis>, k: int) -> i32 {
    (pen_at(start, analyses, k) as u32) as i32
}

/// The glyphs `ids`, drawn as `analyses`, placed one after another from pen position
/// `start`: each is moved right to its pen position and down by its own offset.
pub open spec fn placed(start: int, ids: Seq<u32>, analyses: Seq<GlyphAnalysis>) -> Seq<(u32, GlyphAnalysis)> {
    Seq::new(
        analyses.len(),
        |k: int|
            (
                ids[k],
                shifted(
                    analyses[k],
                    pen_offset(start, analyses, k) as int,
                    analyses[k].baseline_offset.y as int,
                ),
            ),
    )
}

/// Placing `analyses` from `start` keeps the pen within `u32` and every offset within
/// `i32`.
pub open spec fn placing_fits(start: int, analyses: Seq<GlyphAnalysis>) -> bool {
    &&& start + advance_total(analyses) <= u32::MAX
    &&& forall|k: int|
        0 <= k < analyses.len() ==> shift_fits(
            #[trigger] analyses[k],
            pen_offset(start, analyses, k) as int,
            analyses[k].baseline_offset.y as int,
        )
}

/// What a glyph run holds: its type set, the width of its line so far, its height, the
/// offset of its line, and its glyphs placed along the line.
pub struct RunModel {
    pub type_set: TypeSetModel,
    pub line_width: u32,
    pub height: i32,
    pub offset: PixelVector,
    pub glyphs: Seq<(u32, GlyphAnalysis)>,
}

/// `run` after appending the glyphs of `text`: the first text sets the height to the
/// line height, and each glyph is placed at the end of the line, which grows by its
/// advance.
pub open spec fn appended(run: RunModel, text: Seq<char>) -> RunModel {
    let ids = glyph_ids(run.type_set.char_glyphs, text);
    let analyses = run.type_set.text_analyses(text);
    RunModel {
        height: if run.height == 0 {
            run.type_set.line_height() as i32
        } else {
            run.height
        },
        line_width: (run.line_width + advance_total(analyses)) as u32,
        glyphs: run.glyphs + placed(run.line_width as int, ids, analyses),
        ..run
    }
}

/// Appending `text` to `run` maps every character, and stays within the integer types.
pub open spec fn append_fits(run: RunModel, text: Seq<char>) -> bool {
    &&& maps_text(run.type_set.char_glyphs, text)
    &&& placing_fits(run.line_width as int, run.type_set.text_analyses(text))
    &&& run.height == 0 ==> {
        &&& i32::MIN <= run.type_set.ascent - run.type_set.descent <= i32::MAX
        &&& i32::MIN <= run.type_set.line_height() <= i32::MAX
    }
}

/// The advances of a prefix one longer add the next advance.
proof fn lemma_advance_total_step(analyses: Seq<GlyphAnalysis>, k: int)
    requires
        0 <= k < analyses.len(),
    ensures
        advance_total(analyses.take(k + 1)) == advance_total(analyses.take(k)) + (analyses[k].advance.x
            as u32),
{
    assert(analyses.take(k + 1).drop_last() =~= analyses.take(k));
}

/// The advances of a prefix are at most the advances of the whole.
proof fn lemma_advance_total_prefix(analyses: Seq<GlyphAnalysis>, k: int)
    requires
        0 <= k <= analyses.len(),
    ensures
        0 <= advance_total(analyses.take(k)) <= advance_total(analyses),
    decreases analyses.len() - k,
{
    if k == analyses.len() {
        assert(analyses.take(k) =~= analyses);
        lemma_advance_total_nonnegative(analyses);
    } else {
        lemma_advance_total_step(analyses, k);
        lemma_advance_total_prefix(analyses, k + 1);
        lemma_advance_total_nonnegative(analyses.take(k));
    }
}

proof fn lemma_advance_total_nonnegative(analyses: Seq<GlyphAnalysis>)
    ensures
        advance_total(analyses) >= 0,
    decreases analyses.len(),
{
    if analyses.len() > 0 {
        lemma_advance_total_nonnegative(analyses.drop_last());
    }
}

/// The advances of two sequences one after the other add up.
proof fn lemma_advance_total_concat(a: Seq<GlyphAnalysis>, b: Seq<GlyphAnalysis>)
    ensures
        advance_total(a + b) == advance_total(a) + advance_total(b),
    decreases b.len(),
{
    if b.len() == 0 {
        assert(a + b =~= a);
    } else {
        assert((a + b).drop_last() =~= a + b.drop_last());
        lemma_advance_total_concat(a, b.drop_last());
    }
}

/// A glyph run: glyphs laid out one after another along one line.
pub struct GlyphRun {
    type_set: TypeSet,
    line_width: u32,
    height: i32,
    offset: PixelVector,
    glyphs: Vec<(Glyph, GlyphAnalysis)>,
}

/// The abstract entries of placed glyphs.
pub open spec fn entries(glyphs: Seq<(Glyph, GlyphAnalysis)>) -> Seq<(u32, GlyphAnalysis)> {
    glyphs.map_values(|e: (Glyph, GlyphAnalysis)| (e.0@, e.1))
}

impl View for GlyphRun {
    type V = RunModel;

    closed spec fn view(&self) -> RunModel {
        RunModel {
            type_set: self.type_set@,
            line_width: self.line_width,
            height: self.height,
            offset: self.offset,
            glyphs: entries(self.glyphs@),
        }
    }
}

impl GlyphRun {
    /// An empty run set in `type_set`, whose line starts one ascent above the origin.
    pub fn new(type_set: TypeSet) -> (run: GlyphRun)
        requires
            type_set@.ascent > i32::MIN,
        ensures
            run@ == (RunModel {
                type_set: type_set@,
                line_width: 0,
                height: 0,
                offset: PixelVector { x: 0, y: -type_set@.ascent as i32 },
                glyphs: Seq::empty(),
            }),
    {
        let ascent = type_set.ascent();
        let run = GlyphRun {
            type_set,
            line_width: 0,
            height: 0,
            offset: PixelVector { x: 0, y: -ascent },
            glyphs: Vec::new(),
        };
        assert(run@.glyphs =~= Seq::<(u32, GlyphAnalysis)>::empty());
        run
    }

    /// Appends the glyphs of `text` at the end of the line (see `appended`).
    pub fn append_text(&mut self, text: &str)
        requires
            old(self)@.type_set.wf(),
            append_fits(old(self)@, text@),
        ensures
            final(self)@ == appended(old(self)@, text@),
    {
        let ghost start = old(self)@;
        let ghost ids = glyph_ids(start.type_set.char_glyphs, text@);
        let ghost analyses_model = start.type_set.text_analyses(text@);
        let glyphs = self.type_set.as_glyphs(text);
        proof {
            assert forall|i: int| 0 <= i < glyphs@.len() implies #[trigger] glyphs@[i] < start.type_set.faces.len() by {
                assert(glyph_for(start.type_set.char_glyphs, text@[i]) is Some);
                lemma_glyph_for_in_table(start.type_set.char_glyphs, text@[i]);
            }
        }
        let analyses = self.type_set.analyze_glyphs(&glyphs);
        assert(analyses@ =~= analyses_model);
        if self.height == 0 {
            self.height = self.type_set.line_height();
        }
        let glyph_slice = glyphs.glyphs();
        let mut k: usize = 0;
        while k < analyses.len()
            invariant
                k <= analyses@.len(),
                analyses@ == analyses_model,
                ids.len() == analyses@.len(),
                glyph_slice@.map_values(|g: Glyph| g@) == ids,
                placing_fits(start.line_width as int, analyses_model),
                self.type_set@ == start.type_set,
                self.offset == start.offset,
                self.height == appended(start, text@).height,
                self.line_width == pen_at(start.line_width as int, analyses_model, k as int),
                entries(self.glyphs@) == start.glyphs + placed(start.line_width as int, ids, analyses_model).take(
                    k as int,
                ),
            decreases analyses@.len() - k,
        {
            let glyph = glyph_slice[k];
            let analysis = analyses[k];
            proof {
                lemma_advance_total_step(analyses_model, k as int);
                lemma_advance_total_prefix(analyses_model, k as int + 1);
                assert(glyph@ == ids[k as int]);
            }
            let placed_analysis = analysis.with_offset(self.line_width as i32, analysis.baseline_offset.y);
            let ghost before = self.glyphs@;
            self.glyphs.push((glyph, placed_analysis));
            self.line_width = self.line_width + analysis.advance.x as u32;
            proof {
                let all = placed(start.line_width as int, ids, analyses_model);
                assert(all.take(k + 1) =~= all.take(k as int).push(all[k as int]));
                assert(entries(self.glyphs@) =~= entries(before).push((glyph@, placed_analysis)));
            }
            k = k + 1;
        }
        proof {
            let all = placed(start.line_width as int, ids, analyses_model);
            assert(all.take(k as int) =~= all);
            assert(analyses_model.take(k as int) =~= analyses_model);
        }
    }

    /// Moves the line down to line number `line`: one ascent, plus `line` line heights,
    /// below the top.
    pub fn set_line_offset(&mut self, line: i32)
        requires
            old(self)@.type_set.ascent > i32::MIN,
            i32::MIN <= old(self)@.type_set.ascent - old(self)@.type_set.descent <= i32::MAX,
            i32::MIN <= old(self)@.type_set.line_height() <= i32::MAX,
            i32::MIN <= line * old(self)@.type_set.line_height() <= i32::MAX,
            i32::MIN <= -old(self)@.type_set.ascent - line * old(self)@.type_set.line_height() <= i32::MAX,
        ensures
            final(self)@ == (RunModel {
                offset: PixelVector {
                    x: 0,
                    y: (-old(self)@.type_set.ascent - line * old(self)@.type_set.line_height()) as i32,
                },
                ..old(self)@
            }),
    {
        let ascent = self.type_set.ascent();
        let line_height = self.type_set.line_height();
        self.offset = PixelVector { x: 0, y: -ascent - line * line_height };
    }

    /// The width of the line, in pixels.
    pub fn width(&self) -> (w: u32)
        ensures
            w == self@.line_width,
    {
        self.line_width
    }

    /// The height of the line, in pixels: zero until text is appended.
    pub fn height(&self) -> (h: i32)
        ensures
            h == self@.height,
    {
        self.height
    }

    /// The glyphs of the run, each moved by the offset of the line.
    pub fn glyphs(&self) -> (glyphs: Vec<(Glyph, GlyphAnalysis)>)
        requires
            forall|i: int|
                0 <= i < self@.glyphs.len() ==> shift_fits(
                    #[trigger] self@.glyphs[i].1,
                    self@.offset.x as int,
                    self@.offset.y as int,
                ),
        ensures
            entries(glyphs@) == self@.glyphs.map_values(
                |e: (u32, GlyphAnalysis)| (e.0, shifted(e.1, self@.offset.x as int, self@.offset.y as int)),
            ),
    {
        let ghost target = self@.glyphs.map_values(
            |e: (u32, GlyphAnalysis)| (e.0, shifted(e.1, self@.offset.x as int, self@.offset.y as int)),
        );
        let mut glyphs: Vec<(Glyph, GlyphAnalysis)> = Vec::new();
        let mut i: usize = 0;
        while i < self.glyphs.len()
            invariant
                i <= self.glyphs@.len(),
                self@.glyphs.len() == self.glyphs@.len(),
                forall|j: int|
                    0 <= j < self@.glyphs.len() ==> shift_fits(
                        #[trigger] self@.glyphs[j].1,
                        self@.offset.x as int,
                        self@.offset.y as int,
                    ),
                target == self@.glyphs.map_values(
                    |e: (u32, GlyphAnalysis)| (e.0, shifted(e.1, self@.offset.x as int, self@.offset.y as int)),
                ),
                entries(glyphs@) == target.take(i as int),
            decreases self.glyphs@.len() - i,
        {
            let entry = self.glyphs[i];
            assert(self@.glyphs[i as int] == (entry.0@, entry.1));
            assert(shift_fits(self@.glyphs[i as int].1, self@.offset.x as int, self@.offset.y as int));
            let moved = entry.1.with_offset(self.offset.x, self.offset.y);
            let ghost before = glyphs@;
            glyphs.push((entry.0, moved));
            assert(entries(glyphs@) =~= entries(before).push((entry.0@, moved)));
            assert(target.take(i + 1) =~= target.take(i as int).push(target[i as int]));
            i = i + 1;
        }
        assert(target.take(i as int) =~= target);
        glyphs
    }
}

impl TypeSet {
    /// An empty glyph run set in a copy of this type set.
    pub fn build_glyph_run(&self) -> (run: GlyphRun)
        requires
            self@.ascent > i32::MIN,
        ensures
            run@ == (RunModel {
                type_set: self@,
                line_width: 0,
                height: 0,
                offset: PixelVector { x: 0, y: -self@.ascent as i32 },
                glyphs: Seq::empty(),
            }),
    {
        GlyphRun::new(self.clone())
    }
}

/// The pen positions along two sequences of glyphs joined are those along the first,
/// then those along the second from where the first ends.
proof fn lemma_pen_split(w: int, an1: Seq<GlyphAnalysis>, an2: Seq<GlyphAnalysis>)
    ensures
        forall|k: int| 0 <= k <= an1.len() ==> #[trigger] pen_at(w, an1 + an2, k) == pen_at(w, an1, k),
        forall|j: int|
            0 <= j <= an2.len() ==> #[trigger] pen_at(w, an1 + an2, an1.len() + j) == pen_at(
                w + advance_total(an1),
                an2,
                j,
            ),
{
    assert forall|k: int| 0 <= k <= an1.len() implies #[trigger] pen_at(w, an1 + an2, k) == pen_at(w, an1, k) by {
        assert((an1 + an2).take(k) =~= an1.take(k));
    }
    assert forall|j: int| 0 <= j <= an2.len() implies #[trigger] pen_at(w, an1 + an2, an1.len() + j) == pen_at(
        w + advance_total(an1),
        an2,
        j,
    ) by {
        assert((an1 + an2).take(an1.len() + j) =~= an1 + an2.take(j));
        lemma_advance_total_concat(an1, an2.take(j));
    }
}

/// Placing two sequences of glyphs joined places the first, then the second from where
/// the first ends; and it fits exactly when both placings fit.
proof fn lemma_placed_split(
    w: int,
    ids1: Seq<u32>,
    an1: Seq<GlyphAnalysis>,
    ids2: Seq<u32>,
    an2: Seq<GlyphAnalysis>,
)
    requires
        ids1.len() == an1.len(),
        ids2.len() == an2.len(),
        placing_fits(w, an1 + an2),
    ensures
        placing_fits(w, an1),
        placing_fits(w + advance_total(an1), an2),
        placed(w, ids1 + ids2, an1 + an2) == placed(w, ids1, an1) + placed(w + advance_total(an1), ids2, an2),
{
    let an = an1 + an2;
    let w1 = w + advance_total(an1);
    lemma_advance_total_concat(an1, an2);
    lemma_advance_total_nonnegative(an1);
    lemma_advance_total_nonnegative(an2);
    lemma_pen_split(w, an1, an2);
    assert forall|k: int| 0 <= k < an1.len() implies shift_fits(
        #[trigger] an1[k],
        pen_offset(w, an1, k) as int,
        an1[k].baseline_offset.y as int,
    ) by {
        assert(an[k] == an1[k]);
        assert(pen_at(w, an, k) == pen_at(w, an1, k));
    }
    assert forall|j: int| 0 <= j < an2.len() implies shift_fits(
        #[trigger] an2[j],
        pen_offset(w1, an2, j) as int,
        an2[j].baseline_offset.y as int,
    ) by {
        assert(an[an1.len() + j] == an2[j]);
        assert(pen_at(w, an, an1.len() + j) == pen_at(w1, an2, j));
    }
    assert forall|k: int| 0 <= k < an.len() implies #[trigger] placed(w, ids1 + ids2, an)[k] == (placed(
        w,
        ids1,
        an1,
    ) + placed(w1, ids2, an2))[k] by {
        if k < an1.len() {
            assert(pen_at(w, an, k) == pen_at(w, an1, k));
        } else {
            assert(pen_at(w, an, an1.len() + (k - an1.len())) == pen_at(w1, an2, k - an1.len()));
        }
    }
    assert(placed(w, ids1 + ids2, an) =~= placed(w, ids1, an1) + placed(w1, ids2, an2));
}

/// The glyphs and analyses of two texts joined are those of the first, then those of
/// the second.
proof fn lemma_text_split(t: TypeSetModel, first: Seq<char>, second: Seq<char>)
    requires
        maps_text(t.char_glyphs, first + second),
    ensures
        maps_text(t.char_glyphs, first),
        maps_text(t.char_glyphs, second),
        glyph_ids(t.char_glyphs, first + second) == glyph_ids(t.char_glyphs, first) + glyph_ids(
            t.char_glyphs,
            second,
        ),
        t.text_analyses(first + second) == t.text_analyses(first) + t.text_analyses(second),
{
    let table = t.char_glyphs;
    let both = first + second;
    assert forall|i: int| 0 <= i < first.len() implies glyph_for(table, #[trigger] first[i]) is Some by {
        assert(both[i] == first[i]);
    }
    assert forall|i: int| 0 <= i < second.len() implies glyph_for(table, #[trigger] second[i]) is Some by {
        assert(both[first.len() + i] == second[i]);
    }
    assert(glyph_ids(table, both) =~= glyph_ids(table, first) + glyph_ids(table, second));
    assert(t.text_analyses(both) =~= t.text_analyses(first) + t.text_analyses(second));
}

/// Appending two texts one after the other gives the run that appending them joined
/// gives: the same glyphs, placed alike, with the same width and height.
#[verifier::rlimit(40)]
pub proof fn law_append_text_concatenates(run: RunModel, first: Seq<char>, second: Seq<char>)
    requires
        run.type_set.wf(),
        append_fits(run, first + second),
    ensures
        append_fits(run, first),
        append_fits(appended(run, first), second),
        appended(appended(run, first), second) == appended(run, first + second),
{
    let t = run.type_set;
    let w = run.line_width as int;
    lemma_text_split(t, first, second);
    let an1 = t.text_analyses(first);
    let an2 = t.text_analyses(second);
    lemma_placed_split(w, glyph_ids(t.char_glyphs, first), an1, glyph_ids(t.char_glyphs, second), an2);
    lemma_advance_total_concat(an1, an2);
    lemma_advance_total_nonnegative(an1);
    lemma_advance_total_nonnegative(an2);
    let r1 = appended(run, first);
    assert(r1.line_width as int == w + advance_total(an1));
    assert(appended(r1, second).glyphs =~= appended(run, first + second).glyphs);
}

} // verus!
