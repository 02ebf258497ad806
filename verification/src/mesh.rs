//! Triangle meshes: what the tessellators write and the renderer reads.

use crate::color::Color;
use crate::path::Point;
use vstd::prelude::*;

verus! {

/// One, for texture coordinates: they have sixteen fractional bits.
pub const UV_ONE: i64 = 65536;

/// A texture coordinate pair, in sixteen fractional bits.
#[derive(Debug, Clone, Copy, PartialEq, Eq, Structural, Hash, Default)]
pub struct Uv {
    pub u: i64,
    pub v: i64,
}

/// The texture coordinate that untextured geometry carries: a point that
/// is white in every texture it is drawn with.
pub open spec fn white_uv() -> Uv {
    Uv { u: 0, v: 0 }
}

/// The texture coordinate that untextured geometry carries.
pub fn white_uv_exec() -> (uv: Uv)
    ensures
        uv == white_uv(),
{
    Uv { u: 0, v: 0 }
}

/// What kind of data a texture holds.
#[derive(Debug, Clone, Copy, PartialEq, Eq, Structural, Hash)]
pub enum TextureKind {
    Color,
    Mask,
}

impl TextureKind {
    pub fn is_color(&self) -> (r: bool)
        ensures
            r == (*self == TextureKind::Color),
    {
        match self {
            TextureKind::Color => true,
            TextureKind::Mask => false,
        }
    }
}

/// The key of an image in the atlas.
#[derive(Debug, Clone, Copy, PartialEq, Eq, Structural, Hash)]
pub struct AtlasImage {
    pub id: u64,
    pub texture_kind: TextureKind,
}

/// The key of a rasterized glyph in the atlas.
#[derive(Debug, Clone, Copy, PartialEq, Eq, Structural, Hash)]
pub struct GlyphImage {
    pub key: u64,
    pub is_emoji: bool,
}

/// The key under which the atlas holds a tile.
#[derive(Debug, Clone, Copy, PartialEq, Eq, Structural, Hash)]
pub enum AtlasKey {
    Image(AtlasImage),
    Glyph(GlyphImage),
    WhiteTexture,
}

impl AtlasKey {
    /// The kind of texture that the tile is: colour for emoji and for the
    /// white tile, a mask for other glyphs, and what the image says for an
    /// image.
    pub fn texture_kind(&self) -> (kind: TextureKind)
        ensures
            kind == match *self {
                AtlasKey::Glyph(glyph) => if glyph.is_emoji {
                    TextureKind::Color
                } else {
                    TextureKind::Mask
                },
                AtlasKey::Image(image) => image.texture_kind,
                AtlasKey::WhiteTexture => TextureKind::Color,
            },
    {
        match self {
            AtlasKey::Glyph(glyph) => {
                if glyph.is_emoji {
                    TextureKind::Color
                } else {
                    TextureKind::Mask
                }
            },
            AtlasKey::Image(image) => image.texture_kind,
            AtlasKey::WhiteTexture => TextureKind::Color,
        }
    }

    pub fn from_glyph(glyph: GlyphImage) -> (key: AtlasKey)
        ensures
            key == AtlasKey::Glyph(glyph),
    {
        AtlasKey::Glyph(glyph)
    }

    pub fn from_image(image: AtlasImage) -> (key: AtlasKey)
        ensures
            key == AtlasKey::Image(image),
    {
        AtlasKey::Image(image)
    }
}

/// What a mesh is textured with: a tile of the atlas, named by its key; a
/// texture that holds atlas tiles; or a texture of its own.
#[derive(Debug, Clone, Copy, PartialEq, Eq, Structural, Hash)]
pub enum TextureId {
    AtlasKey(AtlasKey),
    Atlas(u32),
    Texture(u32),
}

impl TextureId {
    /// The white tile of the atlas.
    pub open spec fn white() -> TextureId {
        TextureId::AtlasKey(AtlasKey::WhiteTexture)
    }

    /// The white tile of the atlas.
    pub fn white_texture() -> (id: TextureId)
        ensures
            id == TextureId::white(),
    {
        TextureId::AtlasKey(AtlasKey::WhiteTexture)
    }
}

/// A corner of a triangle: where it is, its colour and its texture
/// coordinate.
#[derive(Debug, Clone, Copy, PartialEq, Eq, Structural)]
pub struct Vertex {
    pub pos: Point,
    pub color: Color,
    pub uv: Uv,
}

impl Vertex {
    pub fn new(pos: Point, color: Color, uv: Uv) -> (v: Vertex)
        ensures
            v == (Vertex { pos, color, uv }),
    {
        Vertex { pos, color, uv }
    }
}

/// Vertices, the triangles between them as triples of vertex indices, and
/// the texture that they are drawn with.
pub struct Mesh {
    pub vertices: Vec<Vertex>,
    pub indices: Vec<u32>,
    pub texture: TextureId,
}

/// Whether every index names one of `count` vertices.
pub open spec fn indices_within(indices: Seq<u32>, count: nat) -> bool {
    forall|k: int| 0 <= k < indices.len() ==> #[trigger] indices[k] < count
}

impl Mesh {
    /// Whether the mesh is whole: its indices come in triples and name
    /// vertices of the mesh.
    pub open spec fn wf(&self) -> bool {
        &&& self.indices@.len() % 3 == 0
        &&& indices_within(self.indices@, self.vertices@.len())
    }

    /// An empty mesh with the white texture.
    pub fn new() -> (mesh: Mesh)
        ensures
            mesh.wf(),
            mesh.vertices@.len() == 0,
            mesh.indices@.len() == 0,
            mesh.texture == TextureId::white(),
    {
        Mesh { vertices: Vec::new(), indices: Vec::new(), texture: TextureId::white_texture() }
    }

    /// Empties the mesh. Its texture stays.
    pub fn clear(&mut self)
        ensures
            final(self).wf(),
            final(self).vertices@.len() == 0,
            final(self).indices@.len() == 0,
            final(self).texture == old(self).texture,
    {
        self.vertices.clear();
        self.indices.clear();
    }

    /// Whether the mesh has nothing to draw: no vertex or no index.
    pub fn is_empty(&self) -> (empty: bool)
        ensures
            empty == (self.vertices@.len() == 0 || self.indices@.len() == 0),
    {
        self.vertices.len() == 0 || self.indices.len() == 0
    }

    /// Number of vertices.
    pub fn vertex_count(&self) -> (n: usize)
        ensures
            n == self.vertices@.len(),
    {
        self.vertices.len()
    }

    /// Number of indices.
    pub fn index_count(&self) -> (n: usize)
        ensures
            n == self.indices@.len(),
    {
        self.indices.len()
    }

    /// Makes room for the given numbers of vertices and indices.
    pub fn reserve_prim(&mut self, vertices: usize, indices: usize)
        ensures
            final(self).vertices@ == old(self).vertices@,
            final(self).indices@ == old(self).indices@,
            final(self).texture == old(self).texture,
    {
        self.vertices.reserve(vertices);
        self.indices.reserve(indices);
    }

    /// Appends a vertex.
    pub fn add_vertex(&mut self, pos: Point, color: Color, uv: Uv)
        ensures
            final(self).vertices@ == old(self).vertices@.push(Vertex { pos, color, uv }),
            final(self).indices@ == old(self).indices@,
            final(self).texture == old(self).texture,
    {
        self.vertices.push(Vertex { pos, color, uv });
    }

    /// Appends the triangle between the vertices `a`, `b` and `c`. The
    /// vertices may be added after the triangle.
    pub fn add_triangle(&mut self, a: u32, b: u32, c: u32)
        ensures
            final(self).vertices@ == old(self).vertices@,
            final(self).indices@ == old(self).indices@.push(a).push(b).push(c),
            final(self).texture == old(self).texture,
    {
        self.indices.push(a);
        self.indices.push(b);
        self.indices.push(c);
    }
}

impl Default for Mesh {
    fn default() -> (mesh: Mesh)
        ensures
            mesh.wf(),
            mesh.vertices@.len() == 0,
            mesh.indices@.len() == 0,
            mesh.texture == TextureId::white(),
    {
        Mesh::new()
    }
}

/// Whether `now` is `before` with the vertices `vertices` and the indices
/// `indices` appended, and is whole.
pub open spec fn appended(before: Mesh, now: Mesh, vertices: Seq<Vertex>, indices: Seq<u32>) -> bool {
    &&& now.texture == before.texture
    &&& now.vertices@ == before.vertices@ + vertices
    &&& now.indices@ == before.indices@ + indices
    &&& now.indices@.len() % 3 == 0
    &&& indices_within(now.indices@, now.vertices@.len())
}

/// Appending twice is appending what was appended, one after the other.
pub proof fn lemma_appended_twice(
    a: Mesh,
    b: Mesh,
    c: Mesh,
    v1: Seq<Vertex>,
    i1: Seq<u32>,
    v2: Seq<Vertex>,
    i2: Seq<u32>,
)
    requires
        appended(a, b, v1, i1),
        appended(b, c, v2, i2),
    ensures
        appended(a, c, v1 + v2, i1 + i2),
{
    assert(a.vertices@ + v1 + v2 =~= a.vertices@ + (v1 + v2));
    assert(a.indices@ + i1 + i2 =~= a.indices@ + (i1 + i2));
}

/// A mesh that is whole has nothing appended to itself.
pub proof fn lemma_appended_nothing(a: Mesh)
    requires
        a.indices@.len() % 3 == 0,
        indices_within(a.indices@, a.vertices@.len()),
    ensures
        appended(a, a, Seq::empty(), Seq::empty()),
{
    assert(a.vertices@ + Seq::<Vertex>::empty() =~= a.vertices@);
    assert(a.indices@ + Seq::<u32>::empty() =~= a.indices@);
}

} // verus!
