//! Drawing primitives: handles, extents, draw lists and RGBA textures.
use vstd::prelude::*;

verus! {

/// The unit of typeset lengths.
pub struct Pixels;

/// A packed `0xRRGGBBAA` colour.
pub type Color = u32;

/// Foreground and background colours used to paint a command.
#[derive(PartialEq, Eq, Structural, Copy, Clone, Debug)]
pub struct Brush {
    pub foreground: Color,
    pub background: Color,
}

/// An RGBA texture held on the host: four bytes per pixel, rows of `width` pixels.
pub struct TextureRGBA {
    width: usize,
    bytes: Vec<u8>,
}

/// A greyscale texture (carries no data on the host).
pub struct TextureGreyScale {}

/// A generational key handed out by a resource table.
#[derive(PartialEq, Eq, Structural, Copy, Clone, Debug)]
pub struct Handle {
    pub generation: usize,
    pub key: usize,
}

/// Identifies a surface registered with a resource table.
pub type SurfaceId = Handle;

/// Identifies a mask registered with a resource table.
pub type MaskId = Handle;

impl Handle {
    /// Creates the first handle of a sequence, whose key is `start_from`.
    pub fn new(start_from: usize) -> (h: Handle)
        ensures
            h.generation == 0,
            h.key == start_from,
    {
        Handle { generation: 0, key: start_from }
    }

    /// Returns the current handle and advances the key by one.
    pub fn next(&mut self) -> (h: Handle)
        requires
            old(self).key < usize::MAX,
        ensures
            h == *old(self),
            final(self).generation == old(self).generation,
            final(self).key == old(self).key + 1,
    {
        let next = Handle { generation: self.generation, key: self.key };
        self.key = self.key + 1;
        next
    }
}

/// An axis-aligned rectangle in pixels: its top-left corner and its size.
#[derive(PartialEq, Eq, Structural, Copy, Clone, Debug)]
pub struct Extent {
    pub x: i64,
    pub y: i64,
    pub width: u32,
    pub height: u32,
}

/// Walks the six corners of the two triangles that cover an extent.
pub struct Corners {
    pub corner: usize,
    pub extent: Extent,
}

/// The `index`-th vertex of the two triangles covering `e`:
/// (left, top), (right, top), (left, bottom), (right, top), (right, bottom), (left, bottom).
pub open spec fn corner_point(e: Extent, index: int) -> Option<[i64; 2]> {
    let left = e.x as int;
    let right = e.x + e.width;
    let top = e.y as int;
    let bottom = e.y + e.height;
    if index == 0 {
        Some([left as i64, top as i64])
    } else if index == 1 {
        Some([right as i64, top as i64])
    } else if index == 2 {
        Some([left as i64, bottom as i64])
    } else if index == 3 {
        Some([right as i64, top as i64])
    } else if index == 4 {
        Some([right as i64, bottom as i64])
    } else if index == 5 {
        Some([left as i64, bottom as i64])
    } else {
        None
    }
}

/// The right and bottom edges of `e` fit in an `i64`.
pub open spec fn extent_fits(e: Extent) -> bool {
    &&& e.x + e.width <= i64::MAX
    &&& e.y + e.height <= i64::MAX
}

/// The corners of an extent are exactly six: the walk yields a point for each of the
/// first six steps and nothing from then on.
pub proof fn law_six_corners_then_none(e: Extent, index: int)
    ensures
        0 <= index < 6 ==> corner_point(e, index) is Some,
        (index < 0 || index >= 6) ==> corner_point(e, index) is None,
{
}

impl Extent {
    /// An extent with the given corner and size.
    pub fn new(x: i64, y: i64, width: u32, height: u32) -> (e: Extent)
        ensures
            e == (Extent { x, y, width, height }),
    {
        Extent { x, y, width, height }
    }

    /// An iterator over the six triangle corners of this extent, starting at the first.
    pub fn corners(&self) -> (c: Corners)
        ensures
            c.corner == 0,
            c.extent == *self,
    {
        Corners { corner: 0, extent: *self }
    }
}

impl Corners {
    /// Yields the next triangle corner, or `None` once all six have been produced.
    pub fn next(&mut self) -> (r: Option<[i64; 2]>)
        requires
            extent_fits(old(self).extent),
            old(self).corner < usize::MAX,
        ensures
            r == corner_point(old(self).extent, old(self).corner as int),
            final(self).extent == old(self).extent,
            final(self).corner == old(self).corner + 1,
    {
        let left = self.extent.x;
        let right = self.extent.x + self.extent.width as i64;
        let top = self.extent.y;
        let bottom = self.extent.y + self.extent.height as i64;
        let corner = self.corner;
        self.corner = self.corner + 1;
        if corner == 0 {
            Some([left, top])
        } else if corner == 1 {
            Some([right, top])
        } else if corner == 2 {
            Some([left, bottom])
        } else if corner == 3 {
            Some([right, top])
        } else if corner == 4 {
            Some([right, bottom])
        } else if corner == 5 {
            Some([left, bottom])
        } else {
            None
        }
    }
}

impl From<(u32, u32)> for Extent {
    fn from(tuple: (u32, u32)) -> (e: Extent) {
        Extent { x: 0, y: 0, width: tuple.0, height: tuple.1 }
    }
}

impl vstd::std_specs::convert::FromSpecImpl<(u32, u32)> for Extent {
    open spec fn obeys_from_spec() -> bool {
        true
    }

    open spec fn from_spec(tuple: (u32, u32)) -> Extent {
        Extent { x: 0, y: 0, width: tuple.0, height: tuple.1 }
    }
}

/// The kinds of shape a draw list can paint.
#[derive(PartialEq, Eq, Structural, Copy, Clone, Debug)]
pub enum ShapeKind {
    Rectangle,
    Ellipse,
    Line,
}

/// What a draw command paints.
#[derive(PartialEq, Eq, Structural, Copy, Clone, Debug)]
pub enum DrawCommandKind {
    Shape(ShapeKind),
    Surface(SurfaceId),
    Mask(MaskId),
}

/// The brush and extent shared by every draw command.
#[derive(PartialEq, Eq, Structural, Copy, Clone, Debug)]
pub struct DrawCommandCommonData {
    pub brush: Brush,
    pub extent: Extent,
}

/// One entry of a draw list.
#[derive(PartialEq, Eq, Structural, Copy, Clone, Debug)]
pub struct DrawCommand {
    pub kind: DrawCommandKind,
    pub common_data: DrawCommandCommonData,
}

impl DrawCommandCommonData {
    fn new(brush: Brush, extent: Extent) -> (d: DrawCommandCommonData)
        ensures
            d == (DrawCommandCommonData { brush, extent }),
    {
        DrawCommandCommonData { brush, extent }
    }
}

/// The size of the drawing surface.
#[derive(Copy, Clone, Debug)]
pub struct DrawingOptions {
    pub width: usize,
    pub height: usize,
}

impl Default for DrawingOptions {
    fn default() -> (o: DrawingOptions)
        ensures
            o.width == 64,
            o.height == 64,
    {
        DrawingOptions { width: 64, height: 64 }
    }
}

/// An ordered list of draw commands, painted first to last.
pub struct DrawList {
    commands: Vec<DrawCommand>,
}

impl View for DrawList {
    type V = Seq<DrawCommand>;

    closed spec fn view(&self) -> Seq<DrawCommand> {
        self.commands@
    }
}

impl DrawList {
    /// A draw list with no commands.
    pub fn empty() -> (d: DrawList)
        ensures
            d@ == Seq::<DrawCommand>::empty(),
    {
        DrawList { commands: Vec::new() }
    }

    /// Appends a command that paints a shape.
    pub fn push_shape(&mut self, shape_kind: ShapeKind, brush: Brush, extent: Extent)
        ensures
            final(self)@ == old(self)@.push(
                DrawCommand {
                    kind: DrawCommandKind::Shape(shape_kind),
                    common_data: DrawCommandCommonData { brush, extent },
                },
            ),
    {
        self.commands.push(
            DrawCommand {
                kind: DrawCommandKind::Shape(shape_kind),
                common_data: DrawCommandCommonData::new(brush, extent),
            },
        );
    }

    /// Appends a command that paints a registered surface.
    pub fn push_surface(&mut self, surface_id: SurfaceId, brush: Brush, extent: Extent)
        ensures
            final(self)@ == old(self)@.push(
                DrawCommand {
                    kind: DrawCommandKind::Surface(surface_id),
                    common_data: DrawCommandCommonData { brush, extent },
                },
            ),
    {
        self.commands.push(
            DrawCommand {
                kind: DrawCommandKind::Surface(surface_id),
                common_data: DrawCommandCommonData::new(brush, extent),
            },
        );
    }

    /// Appends a command that paints a registered mask.
    pub fn push_mask(&mut self, mask_id: MaskId, brush: Brush, extent: Extent)
        ensures
            final(self)@ == old(self)@.push(
                DrawCommand {
                    kind: DrawCommandKind::Mask(mask_id),
                    common_data: DrawCommandCommonData { brush, extent },
                },
            ),
    {
        self.commands.push(
            DrawCommand {
                kind: DrawCommandKind::Mask(mask_id),
                common_data: DrawCommandCommonData::new(brush, extent),
            },
        );
    }

    /// Appends every command of `other`, in order, after the commands of this list.
    pub fn push_list(&mut self, other: DrawList)
        ensures
            final(self)@ == old(self)@ + other@,
    {
        let mut other_commands = other.commands;
        self.commands.append(&mut other_commands);
    }

    /// The number of commands in the list.
    pub fn len(&self) -> (n: usize)
        ensures
            n == self@.len(),
    {
        self.commands.len()
    }

    /// The `index`-th command of the list.
    pub fn command(&self, index: usize) -> (c: DrawCommand)
        requires
            index < self@.len(),
        ensures
            c == self@[index as int],
    {
        self.commands[index]
    }
}

/// The pixel whose bytes start at `i`, packed big-endian into a `u32`.
pub open spec fn packed_pixel(bytes: Seq<u8>, i: int) -> int {
    bytes[i] * 0x1000000 + bytes[i + 1] * 0x10000 + bytes[i + 2] * 0x100 + bytes[i + 3]
}

impl TextureRGBA {
    /// A texture of rows `width` pixels wide over `bytes`; the height is implied by the bytes.
    pub fn new(width: usize, _height: usize, bytes: Vec<u8>) -> (t: TextureRGBA)
        ensures
            t.width() == width,
            t.bytes() == bytes@,
    {
        TextureRGBA { width, bytes }
    }

    /// The row width in pixels.
    pub closed spec fn width(&self) -> usize {
        self.width
    }

    /// The raw bytes of the texture.
    pub closed spec fn bytes(&self) -> Seq<u8> {
        self.bytes@
    }

    /// The pixel at column `x`, row `y`, as `0xRRGGBBAA` read from the four bytes
    /// that start at index `y * width + x`.
    pub fn get_pixel(&self, x: usize, y: usize) -> (p: u32)
        requires
            y * self.width() + x + 4 <= self.bytes().len(),
        ensures
            p == packed_pixel(self.bytes(), y * self.width() + x),
    {
        let n = self.bytes.len();
        assert(n == self.bytes().len());
        let start_index = self.get_index(x, y);
        let b0 = self.bytes[start_index] as u32;
        let b1 = self.bytes[start_index + 1] as u32;
        let b2 = self.bytes[start_index + 2] as u32;
        let b3 = self.bytes[start_index + 3] as u32;
        assert(b0 < 256 && b1 < 256 && b2 < 256 && b3 < 256);
        assert((b0 << 24 | b1 << 16 | b2 << 8 | b3) == b0 * 0x1000000 + b1 * 0x10000 + b2 * 0x100
            + b3) by (bit_vector)
            requires
                b0 < 256 && b1 < 256 && b2 < 256 && b3 < 256,
        ;
        b0 << 24 | b1 << 16 | b2 << 8 | b3
    }

    fn get_index(&self, x: usize, y: usize) -> (i: usize)
        requires
            y * self.width() + x <= usize::MAX,
        ensures
            i == y * self.width() + x,
    {
        assert(y * self.width <= y * self.width + x);
        y * self.width + x
    }
}

} // verus!
