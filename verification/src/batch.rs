//! Draw instructions and their batches: maximal runs of instructions that
//! share their render texture and clip rectangle, each of which is drawn
//! with one call.

use crate::atlas::AtlasTextureInfo;
use crate::atlas::AtlasTextureInfoMap;
use crate::brush::Brush;
use crate::color::Color;
use crate::draw_list::mesh_grown;
use crate::draw_list::mesh_same;
use crate::draw_list::primitive_drawn;
use crate::draw_list::primitive_ok;
use crate::draw_list::DrawList;
use crate::math::Rect;
use crate::mesh::AtlasKey;
use crate::mesh::Mesh;
use crate::mesh::TextureId;
use crate::mesh::Uv;
use crate::mesh::Vertex;
use crate::primitives::Primitive;
use crate::transform::Transform;
use vstd::prelude::*;

verus! {

/// One draw operation: a shape, how it is painted, what it is textured
/// with, where it is clipped and how it is placed.
pub struct GraphicsInstruction {
    pub primitive: Primitive,
    pub brush: Brush,
    pub texture_id: TextureId,
    pub clip_rect: Rect,
    pub transform: Option<Transform>,
}

/// The clip rectangle that clips nothing: all finite coordinates.
pub open spec fn everything() -> Rect {
    Rect { x: (-0x2000_0000i32), y: (-0x2000_0000i32), width: 0x4000_0000, height: 0x4000_0000 }
}

/// The clip rectangle that clips nothing.
pub fn clip_everything() -> (r: Rect)
    ensures
        r == everything(),
{
    Rect { x: -0x2000_0000, y: -0x2000_0000, width: 0x4000_0000, height: 0x4000_0000 }
}

impl GraphicsInstruction {
    /// Whether the instruction leaves no mark: its brush draws nothing.
    pub open spec fn draws_nothing(&self) -> bool {
        self.brush.draws_nothing()
    }

    /// The shape `primitive` painted with `brush`, untextured, unclipped
    /// and in place.
    pub fn brush(primitive: Primitive, brush: Brush) -> (ins: GraphicsInstruction)
        ensures
            ins.primitive == primitive,
            ins.brush == brush,
            ins.texture_id == TextureId::white(),
            ins.clip_rect == everything(),
            ins.transform is None,
    {
        GraphicsInstruction {
            primitive,
            brush,
            texture_id: TextureId::white_texture(),
            clip_rect: clip_everything(),
            transform: None,
        }
    }

    /// The shape `primitive` textured with `texture_id`, on an opaque white
    /// fill.
    pub fn textured(primitive: Primitive, texture_id: TextureId) -> (ins: GraphicsInstruction)
        ensures
            ins.primitive == primitive,
            ins.brush.fill_style.color == (Color { r: 255, g: 255, b: 255, a: 255 }),
            ins.texture_id == texture_id,
            ins.clip_rect == everything(),
            ins.transform is None,
    {
        GraphicsInstruction {
            primitive,
            brush: Brush::filled(Color::white()),
            texture_id,
            clip_rect: clip_everything(),
            transform: None,
        }
    }

    /// The shape `primitive` textured with `texture_id` and painted with
    /// `brush`.
    pub fn textured_brush(primitive: Primitive, texture_id: TextureId, brush: Brush) -> (ins:
        GraphicsInstruction)
        ensures
            ins.primitive == primitive,
            ins.brush == brush,
            ins.texture_id == texture_id,
            ins.clip_rect == everything(),
            ins.transform is None,
    {
        GraphicsInstruction {
            primitive,
            brush,
            texture_id,
            clip_rect: clip_everything(),
            transform: None,
        }
    }

    /// Whether the instruction leaves no mark.
    pub fn nothing_to_draw(&self) -> (nothing: bool)
        ensures
            nothing == self.draws_nothing(),
    {
        self.brush.nothing_to_draw()
    }
}

/// The state that a draw call is made in.
#[derive(Debug, Clone, Copy, PartialEq, Eq, Structural)]
pub struct BatchKey {
    pub texture: TextureId,
    pub clip_rect: Rect,
}

/// The texture that the renderer binds for `texture_id`: the texture that
/// holds the tile, for a key that the atlas knows; the identifier itself
/// otherwise.
pub open spec fn render_texture(texture_id: TextureId, atlas: AtlasTextureInfoMap) -> TextureId {
    match texture_id {
        TextureId::AtlasKey(key) => match atlas.info_of(key) {
            Some(info) => TextureId::Atlas(info.tile.texture),
            None => texture_id,
        },
        _ => texture_id,
    }
}

/// The state that the instruction is drawn in.
pub open spec fn key_of(ins: GraphicsInstruction, atlas: AtlasTextureInfoMap) -> BatchKey {
    BatchKey { texture: render_texture(ins.texture_id, atlas), clip_rect: ins.clip_rect }
}

/// The texture that the renderer binds for `texture_id`.
pub fn get_renderer_texture(texture_id: &TextureId, atlas: &AtlasTextureInfoMap) -> (t: TextureId)
    ensures
        t == render_texture(*texture_id, *atlas),
{
    match texture_id {
        TextureId::AtlasKey(key) => match atlas.get(key) {
            Some(info) => TextureId::Atlas(info.tile.texture),
            None => *texture_id,
        },
        _ => *texture_id,
    }
}

/// Number of maximal runs of equal keys: the least number of draw calls
/// that draws the keys in order.
pub open spec fn runs(keys: Seq<BatchKey>) -> nat
    decreases keys.len(),
{
    if keys.len() == 0 {
        0
    } else if keys.len() == 1 {
        1
    } else {
        runs(keys.drop_last()) + if keys[keys.len() - 1] != keys[keys.len() - 2] {
            1nat
        } else {
            0nat
        }
    }
}

/// There are no more runs than keys, and at least one where there is a
/// key.
pub proof fn lemma_runs_bounds(keys: Seq<BatchKey>)
    ensures
        runs(keys) <= keys.len(),
        keys.len() > 0 ==> runs(keys) >= 1,
    decreases keys.len(),
{
    if keys.len() > 1 {
        lemma_runs_bounds(keys.drop_last());
    }
}

/// Keys of which no two neighbours are equal, such as keys that alternate
/// between two textures, make as many runs as there are keys: none of the
/// instructions can share a draw call.
pub proof fn lemma_alternating_runs(keys: Seq<BatchKey>)
    requires
        forall|i: int| 0 < i < keys.len() ==> #[trigger] keys[i] != keys[i - 1],
    ensures
        runs(keys) == keys.len(),
    decreases keys.len(),
{
    if keys.len() > 1 {
        lemma_alternating_runs(keys.drop_last());
    }
}

/// Keys that are all equal make one run: all instructions share one draw
/// call.
pub proof fn lemma_equal_keys_one_run(keys: Seq<BatchKey>)
    requires
        keys.len() > 0,
        forall|i: int| 0 < i < keys.len() ==> #[trigger] keys[i] == keys[i - 1],
    ensures
        runs(keys) == 1,
    decreases keys.len(),
{
    if keys.len() > 1 {
        lemma_equal_keys_one_run(keys.drop_last());
    }
}

/// A run of instructions that are drawn with one call: the positions
/// `start..end` among the instructions that draw something.
#[derive(Debug, Clone, Copy, PartialEq, Eq, Structural)]
pub struct Batch {
    pub start: usize,
    pub end: usize,
    pub renderer_texture: TextureId,
    pub clip_rect: Rect,
}

impl Batch {
    /// The state that the batch is drawn in.
    pub open spec fn key(&self) -> BatchKey {
        BatchKey { texture: self.renderer_texture, clip_rect: self.clip_rect }
    }
}

/// Whether `batches` cuts `keys` into its maximal runs: the batches follow
/// one another without gap from the first key to the last, none is empty,
/// every key of a batch is the key of the batch, and two batches that touch
/// differ in their key.
pub open spec fn batches_of(batches: Seq<Batch>, keys: Seq<BatchKey>) -> bool {
    &&& batches.len() == runs(keys)
    &&& forall|b: int| 0 <= b < batches.len() ==> (#[trigger] batches[b]).start < batches[b].end
        <= keys.len()
    &&& batches.len() > 0 ==> batches[0].start == 0 && batches[batches.len() - 1].end == keys.len()
    &&& forall|b: int|
        0 < b < batches.len() ==> (#[trigger] batches[b]).start == batches[b - 1].end
            && batches[b].key() != batches[b - 1].key()
    &&& forall|b: int, i: int|
        0 <= b < batches.len() && batches[b].start <= i < batches[b].end ==> #[trigger] keys[i]
            == (#[trigger] batches[b]).key()
}

/// Cuts `keys` into its maximal runs.
pub fn batch_keys(keys: &Vec<BatchKey>) -> (batches: Vec<Batch>)
    ensures
        batches_of(batches@, keys@),
{
    let mut batches: Vec<Batch> = Vec::new();
    let n = keys.len();
    if n == 0 {
        return batches;
    }
    let mut start: usize = 0;
    let mut i: usize = 1;
    assert(keys@.take(1).len() == 1);
    while i < n
        invariant
            1 <= i <= n,
            n == keys@.len(),
            start < i,
            batches@.len() + 1 == runs(keys@.take(i as int)),
            forall|b: int|
                0 <= b < batches@.len() ==> (#[trigger] batches@[b]).start < batches@[b].end <= start,
            batches@.len() > 0 ==> batches@[0].start == 0 && batches@[batches@.len() - 1].end
                == start && batches@[batches@.len() - 1].key() != keys@[start as int],
            batches@.len() == 0 ==> start == 0,
            forall|b: int|
                0 < b < batches@.len() ==> (#[trigger] batches@[b]).start == batches@[b - 1].end
                    && batches@[b].key() != batches@[b - 1].key(),
            forall|b: int, j: int|
                0 <= b < batches@.len() && batches@[b].start <= j < batches@[b].end
                    ==> #[trigger] keys@[j] == (#[trigger] batches@[b]).key(),
            forall|j: int| start <= j < i ==> keys@[j] == keys@[start as int],
        decreases n - i,
    {
        proof {
            assert(keys@.take(i as int + 1).drop_last() =~= keys@.take(i as int));
        }
        if keys[i] != keys[i - 1] {
            let first = keys[start];
            batches.push(
                Batch {
                    start,
                    end: i,
                    renderer_texture: first.texture,
                    clip_rect: first.clip_rect,
                },
            );
            start = i;
        }
        i += 1;
    }
    let first = keys[start];
    batches.push(
        Batch { start, end: n, renderer_texture: first.texture, clip_rect: first.clip_rect },
    );
    assert(keys@.take(n as int) =~= keys@);
    batches
}

/// Whether `kept` names, in order, the instructions that draw something.
pub open spec fn kept_of(kept: Seq<usize>, instructions: Seq<GraphicsInstruction>) -> bool {
    &&& forall|k: int|
        0 <= k < kept.len() ==> (#[trigger] kept[k]) < instructions.len()
            && !instructions[kept[k] as int].draws_nothing()
    &&& forall|j: int, k: int| 0 <= j < k < kept.len() ==> kept[j] < kept[k]
    &&& forall|i: int|
        0 <= i < instructions.len() && !(#[trigger] instructions[i]).draws_nothing() ==> exists|
            k: int,
        |
            0 <= k < kept.len() && kept[k] == i
}

/// The keys of the instructions that `kept` names.
pub open spec fn keys_of(
    kept: Seq<usize>,
    instructions: Seq<GraphicsInstruction>,
    atlas: AtlasTextureInfoMap,
) -> Seq<BatchKey> {
    Seq::new(kept.len(), |k: int| key_of(instructions[kept[k] as int], atlas))
}

/// The batches of a sequence of instructions.
pub struct GraphicsInstructionBatcher {
    kept: Vec<usize>,
    batches: Vec<Batch>,
    cursor: usize,
}

impl GraphicsInstructionBatcher {
    /// The instructions that draw something, by their position, in order.
    pub closed spec fn kept(&self) -> Seq<usize> {
        self.kept@
    }

    /// The batches, in order.
    pub closed spec fn batches(&self) -> Seq<Batch> {
        self.batches@
    }

    /// Number of batches already handed out.
    pub closed spec fn given(&self) -> int {
        self.cursor as int
    }

    /// Batches `instructions`: those that draw nothing are dropped, and the
    /// rest is cut into the maximal runs of instructions that share their
    /// render texture, as `atlas` resolves it, and their clip rectangle.
    /// There are exactly as many batches as there are such runs.
    pub fn new(instructions: &Vec<GraphicsInstruction>, atlas: &AtlasTextureInfoMap) -> (b: Self)
        ensures
            kept_of(b.kept(), instructions@),
            batches_of(b.batches(), keys_of(b.kept(), instructions@, *atlas)),
            b.batches().len() == runs(keys_of(b.kept(), instructions@, *atlas)),
            b.given() == 0,
    {
        let mut kept: Vec<usize> = Vec::new();
        let mut keys: Vec<BatchKey> = Vec::new();
        let mut i: usize = 0;
        while i < instructions.len()
            invariant
                i <= instructions@.len(),
                kept@.len() == keys@.len(),
                keys@ == keys_of(kept@, instructions@, *atlas),
                forall|k: int|
                    0 <= k < kept@.len() ==> (#[trigger] kept@[k]) < i && !instructions@[kept@[k] as int].draws_nothing(),
                forall|j: int, k: int| 0 <= j < k < kept@.len() ==> kept@[j] < kept@[k],
                forall|j: int|
                    0 <= j < i && !(#[trigger] instructions@[j]).draws_nothing() ==> exists|
                        k: int,
                    |
                        0 <= k < kept@.len() && kept@[k] == j,
            decreases instructions@.len() - i,
        {
            let ins = &instructions[i];
            if !ins.nothing_to_draw() {
                let ghost before = kept@;
                kept.push(i);
                keys.push(
                    BatchKey {
                        texture: get_renderer_texture(&ins.texture_id, atlas),
                        clip_rect: ins.clip_rect,
                    },
                );
                proof {
                    assert(keys@ =~= keys_of(kept@, instructions@, *atlas));
                    assert forall|j: int|
                        0 <= j < i + 1 && !(#[trigger] instructions@[j]).draws_nothing() implies exists|
                        k: int,
                    |
                        0 <= k < kept@.len() && kept@[k] == j by {
                        if j < i {
                            let k0 = choose|k: int| 0 <= k < before.len() && before[k] == j;
                            assert(kept@[k0] == j);
                        } else {
                            assert(kept@[kept@.len() - 1] == j);
                        }
                    }
                }
            }
            i += 1;
        }
        let batches = batch_keys(&keys);
        GraphicsInstructionBatcher { kept, batches, cursor: 0 }
    }

    /// Number of batches.
    pub fn len(&self) -> (n: usize)
        ensures
            n == self.batches().len(),
    {
        self.batches.len()
    }

    /// The next batch, or `None` after the last.
    pub fn next(&mut self) -> (batch: Option<Batch>)
        ensures
            final(self).kept() == old(self).kept(),
            final(self).batches() == old(self).batches(),
            old(self).given() < old(self).batches().len() ==> batch == Some(
                old(self).batches()[old(self).given()],
            ) && final(self).given() == old(self).given() + 1,
            old(self).given() >= old(self).batches().len() ==> batch is None && final(self).given()
                == old(self).given(),
    {
        if self.cursor < self.batches.len() {
            let b = self.batches[self.cursor];
            self.cursor += 1;
            Some(b)
        } else {
            None
        }
    }

    /// The positions, among all instructions, of the instructions of
    /// `batch`.
    pub fn instructions_of(&self, batch: &Batch) -> (positions: Vec<usize>)
        requires
            batch.start <= batch.end <= self.kept().len(),
        ensures
            positions@ == self.kept().subrange(batch.start as int, batch.end as int),
    {
        let mut out: Vec<usize> = Vec::new();
        let mut k: usize = batch.start;
        while k < batch.end
            invariant
                batch.start <= k <= batch.end <= self.kept@.len(),
                out@ == self.kept@.subrange(batch.start as int, k as int),
            decreases batch.end - k,
        {
            out.push(self.kept[k]);
            assert(self.kept@.subrange(batch.start as int, k as int + 1) =~= self.kept@.subrange(
                batch.start as int,
                k as int,
            ).push(self.kept@[k as int]));
            k += 1;
        }
        out
    }
}

/// What the renderer draws with one call: a mesh and the rectangle that it
/// is clipped to.
pub struct Renderable {
    pub clip_rect: Rect,
    pub mesh: Mesh,
}

/// Whether `now` is `before` with the texture coordinates of the vertices
/// from `start` on placed in the space of the texture that holds the tile
/// `info`, or set to `white` where there is one.
pub open spec fn remapped(
    before: Mesh,
    now: Mesh,
    start: int,
    info: AtlasTextureInfo,
    white: Option<Uv>,
) -> bool {
    &&& now.texture == before.texture
    &&& now.indices@ == before.indices@
    &&& now.vertices@.len() == before.vertices@.len()
    &&& forall|i: int| 0 <= i < start && i < before.vertices@.len() ==> now.vertices@[i] == before.vertices@[i]
    &&& forall|i: int|
        start <= i < before.vertices@.len() ==> #[trigger] now.vertices@[i] == (Vertex {
            uv: match white {
                Some(uv) => uv,
                None => info.in_atlas(before.vertices@[i].uv),
            },
            ..before.vertices@[i]
        })
}

/// What the atlas tells of the texture of an instruction.
pub open spec fn tile_of(ins: GraphicsInstruction, atlas: AtlasTextureInfoMap) -> Option<
    AtlasTextureInfo,
> {
    match ins.texture_id {
        TextureId::AtlasKey(key) => atlas.info_of(key),
        _ => None,
    }
}

/// Whether `mid` is `before` with the shape of `ins` drawn into it, textured
/// unless the instruction names the white tile, and `now` is `mid` with the
/// texture coordinates of the new vertices placed in the atlas, where the
/// atlas knows the tile of the instruction; an instruction with the white
/// tile gets the white coordinate of the atlas.
pub open spec fn instruction_steps(
    before: Mesh,
    mid: Mesh,
    now: Mesh,
    ins: GraphicsInstruction,
    atlas: AtlasTextureInfoMap,
    white: Uv,
    feathering: int,
) -> bool {
    let is_white = ins.texture_id == TextureId::white();
    &&& primitive_drawn(
        before,
        mid,
        ins.primitive,
        ins.brush,
        feathering,
        !is_white,
        ins.transform,
    )
    &&& mesh_grown(before, mid)
    &&& match tile_of(ins, atlas) {
        None => mesh_same(mid, now),
        Some(info) => remapped(
            mid,
            now,
            before.vertices@.len() as int,
            info,
            if is_white {
                Some(white)
            } else {
                None
            },
        ),
    }
}

/// Whether `now` is `before` with the instructions at the first `k` of
/// `positions` drawn into it, one after the other.
pub open spec fn instructions_drawn(
    before: Mesh,
    now: Mesh,
    instructions: Seq<GraphicsInstruction>,
    positions: Seq<usize>,
    atlas: AtlasTextureInfoMap,
    white: Uv,
    feathering: int,
    k: int,
) -> bool
    decreases k,
{
    if k <= 0 {
        mesh_same(before, now)
    } else {
        exists|earlier: Mesh, mid: Mesh|
            #![trigger last_instruction_steps(earlier, mid, now, instructions, positions, atlas, white, feathering, k)]
            instructions_drawn(
                before,
                earlier,
                instructions,
                positions,
                atlas,
                white,
                feathering,
                k - 1,
            ) && last_instruction_steps(
                earlier,
                mid,
                now,
                instructions,
                positions,
                atlas,
                white,
                feathering,
                k,
            )
    }
}

/// Whether `now` is `earlier` with the instruction at position `k - 1` of
/// `positions` drawn into it, by way of `mid`.
pub open spec fn last_instruction_steps(
    earlier: Mesh,
    mid: Mesh,
    now: Mesh,
    instructions: Seq<GraphicsInstruction>,
    positions: Seq<usize>,
    atlas: AtlasTextureInfoMap,
    white: Uv,
    feathering: int,
    k: int,
) -> bool {
    instruction_steps(
        earlier,
        mid,
        now,
        instructions[positions[k - 1] as int],
        atlas,
        white,
        feathering,
    )
}

/// Builds the mesh of one batch: the instructions at `positions` are drawn
/// into `drawlist`, behind what it holds, and the texture coordinates of
/// every instruction whose tile the atlas knows are placed in the space of
/// the texture that holds the tile. The mesh is handed out with the texture
/// and the clip rectangle of the batch, and `drawlist` is left empty.
/// Returns `None` where the mesh has nothing to draw.
pub fn build_renderable(
    drawlist: &mut DrawList,
    instructions: &Vec<GraphicsInstruction>,
    positions: &Vec<usize>,
    atlas: &AtlasTextureInfoMap,
    batch: &Batch,
    white_texture_uv: Uv,
) -> (renderable: Option<Renderable>)
    requires
        old(drawlist).wf(),
        forall|k: int| 0 <= k < positions@.len() ==> (#[trigger] positions@[k]) < instructions@.len(),
        forall|i: int|
            0 <= i < instructions@.len() ==> primitive_ok((#[trigger] instructions@[i]).primitive),
    ensures
        final(drawlist).wf(),
        final(drawlist).feather() == old(drawlist).feather(),
        final(drawlist).mesh().vertices@.len() == 0,
        final(drawlist).mesh().indices@.len() == 0,
        exists|built: Mesh|
            {
                &&& #[trigger] instructions_drawn(
                    old(drawlist).mesh(),
                    built,
                    instructions@,
                    positions@,
                    *atlas,
                    white_texture_uv,
                    old(drawlist).feather(),
                    positions@.len() as int,
                )
                &&& built.wf()
                &&& renderable is None <==> (built.vertices@.len() == 0 || built.indices@.len()
                    == 0)
                &&& renderable matches Some(r) ==> {
                    &&& r.mesh.vertices@ == built.vertices@
                    &&& r.mesh.indices@ == built.indices@
                    &&& r.mesh.texture == batch.renderer_texture
                    &&& r.clip_rect == batch.clip_rect
                }
            },
        renderable matches Some(r) ==> r.mesh.wf() && r.mesh.vertices@.len() > 0
            && r.mesh.indices@.len() > 0,
{
    let ghost feathering = drawlist.feather();
    let ghost m0 = drawlist.mesh();
    let mut k: usize = 0;
    while k < positions.len()
        invariant
            k <= positions@.len(),
            drawlist.wf(),
            drawlist.feather() == feathering,
            feathering == old(drawlist).feather(),
            m0 == old(drawlist).mesh(),
            instructions_drawn(
                m0,
                drawlist.mesh(),
                instructions@,
                positions@,
                *atlas,
                white_texture_uv,
                feathering,
                k as int,
            ),
            forall|j: int|
                0 <= j < positions@.len() ==> (#[trigger] positions@[j]) < instructions@.len(),
            forall|i: int|
                0 <= i < instructions@.len() ==> primitive_ok(
                    (#[trigger] instructions@[i]).primitive,
                ),
        decreases positions@.len() - k,
    {
        let instruction = &instructions[positions[k]];
        let is_white_texture = instruction.texture_id == TextureId::white_texture();
        let info: Option<AtlasTextureInfo> = match instruction.texture_id {
            TextureId::AtlasKey(key) => atlas.get(&key),
            _ => None,
        };
        let ghost earlier = drawlist.mesh();
        let start = drawlist.vertex_count();
        drawlist.add_primitive(
            &instruction.primitive,
            &instruction.brush,
            !is_white_texture,
            instruction.transform,
        );
        let ghost mid = drawlist.mesh();
        let end = drawlist.vertex_count();
        match info {
            None => {},
            Some(info) => {
                proof {
                    drawlist.lemma_wf();
                }
                drawlist.remap_uv(
                    start,
                    end,
                    &info,
                    if is_white_texture {
                        Some(white_texture_uv)
                    } else {
                        None
                    },
                );
            },
        }
        proof {
            assert(last_instruction_steps(
                earlier,
                mid,
                drawlist.mesh(),
                instructions@,
                positions@,
                *atlas,
                white_texture_uv,
                feathering,
                k as int + 1,
            ));
        }
        k += 1;
    }
    proof {
        drawlist.lemma_wf();
    }
    let ghost built = drawlist.mesh();
    let mut mesh = drawlist.build();
    if mesh.is_empty() {
        return None;
    }
    mesh.texture = batch.renderer_texture;
    Some(Renderable { clip_rect: batch.clip_rect, mesh })
}

/// Whether every instruction holds a shape that can be built.
pub open spec fn instructions_ok(instructions: Seq<GraphicsInstruction>) -> bool {
    forall|i: int| 0 <= i < instructions.len() ==> primitive_ok((#[trigger] instructions[i]).primitive)
}

/// Whether the shape can be built as a path.
pub fn check_primitive(primitive: &Primitive) -> (ok: bool)
    ensures
        ok == primitive_ok(*primitive),
{
    match primitive {
        Primitive::Circle(circle) => {
            let r: i64 = if circle.radius < 0 {
                -(circle.radius as i64)
            } else {
                circle.radius as i64
            };
            let limit: i64 = crate::path::COORD_MAX as i64;
            r <= limit && -limit <= circle.center.x as i64 - r && circle.center.x as i64 + r
                <= limit && -limit <= circle.center.y as i64 - r && circle.center.y as i64 + r
                <= limit
        },
        Primitive::Quad(quad) => {
            quad.bounds.is_wf() && quad.corners.top_left > i32::MIN && quad.corners.top_right
                > i32::MIN && quad.corners.bottom_right > i32::MIN && quad.corners.bottom_left
                > i32::MIN
        },
        Primitive::Path { path, brush: _ } => path.is_wf(),
    }
}

/// Whether every instruction holds a shape that can be built.
pub fn check_instructions(instructions: &Vec<GraphicsInstruction>) -> (ok: bool)
    ensures
        ok == instructions_ok(instructions@),
{
    let mut i: usize = 0;
    while i < instructions.len()
        invariant
            i <= instructions@.len(),
            forall|k: int| 0 <= k < i ==> primitive_ok((#[trigger] instructions@[k]).primitive),
        decreases instructions@.len() - i,
    {
        if !check_primitive(&instructions[i].primitive) {
            return false;
        }
        i += 1;
    }
    true
}

/// Whether `built` is the mesh of the instructions at `positions`: they
/// are drawn, one after the other, into a mesh that starts empty.
pub open spec fn batch_mesh(
    built: Mesh,
    instructions: Seq<GraphicsInstruction>,
    positions: Seq<usize>,
    atlas: AtlasTextureInfoMap,
    white: Uv,
    feathering: int,
) -> bool {
    exists|start: Mesh|
        start.vertices@.len() == 0 && start.indices@.len() == 0 && #[trigger] instructions_drawn(
            start,
            built,
            instructions,
            positions,
            atlas,
            white,
            feathering,
            positions.len() as int,
        )
}

/// Whether the renderable holds the mesh `built` with the texture and the
/// clip rectangle of `batch`.
pub open spec fn carries(r: Renderable, built: Mesh, batch: Batch) -> bool {
    &&& r.mesh.vertices@ == built.vertices@
    &&& r.mesh.indices@ == built.indices@
    &&& r.mesh.texture == batch.renderer_texture
    &&& r.clip_rect == batch.clip_rect
}

/// Whether `now` is `mid` with what batch `k - 1` gives: the renderable
/// that carries the mesh of its instructions; nothing where that mesh has
/// nothing to draw.
pub open spec fn last_batch_rendered(
    mid: Seq<Renderable>,
    now: Seq<Renderable>,
    kept: Seq<usize>,
    batches: Seq<Batch>,
    instructions: Seq<GraphicsInstruction>,
    atlas: AtlasTextureInfoMap,
    white: Uv,
    feathering: int,
    k: int,
) -> bool {
    batch_rendered(
        mid,
        now,
        instructions,
        kept.subrange(batches[k - 1].start as int, batches[k - 1].end as int),
        batches[k - 1],
        atlas,
        white,
        feathering,
    )
}

/// Whether `now` is what the first `upto` of `batches` give, batch after
/// batch.
pub open spec fn batches_rendered(
    now: Seq<Renderable>,
    kept: Seq<usize>,
    batches: Seq<Batch>,
    instructions: Seq<GraphicsInstruction>,
    atlas: AtlasTextureInfoMap,
    white: Uv,
    feathering: int,
    upto: int,
) -> bool
    decreases upto,
{
    if upto <= 0 {
        now.len() == 0
    } else {
        exists|mid: Seq<Renderable>|
            batches_rendered(mid, kept, batches, instructions, atlas, white, feathering, upto - 1)
                && #[trigger] last_batch_rendered(
                mid,
                now,
                kept,
                batches,
                instructions,
                atlas,
                white,
                feathering,
                upto,
            )
    }
}

/// Whether `renderables` is what the instructions of one stage give the
/// renderer to draw: `kept` names the instructions that draw something,
/// `batches` cuts them into the maximal runs that share texture and clip
/// rectangle, and every batch whose mesh has something to draw gives one
/// renderable, in the order of the batches.
#[verifier::opaque]
pub open spec fn stage_rendered(
    renderables: Seq<Renderable>,
    kept: Seq<usize>,
    batches: Seq<Batch>,
    instructions: Seq<GraphicsInstruction>,
    atlas: AtlasTextureInfoMap,
    white: Uv,
    feathering: int,
) -> bool {
    &&& kept_of(kept, instructions)
    &&& batches_of(batches, keys_of(kept, instructions, atlas))
    &&& renderables.len() <= batches.len()
    &&& batches_rendered(
        renderables,
        kept,
        batches,
        instructions,
        atlas,
        white,
        feathering,
        batches.len() as int,
    )
}

/// A stage gives the renderer no more to draw than there are maximal runs
/// of instructions that share texture and clip rectangle: the batches are
/// exactly these runs, and each gives one renderable at most.
pub proof fn lemma_stage_count(
    renderables: Seq<Renderable>,
    kept: Seq<usize>,
    batches: Seq<Batch>,
    instructions: Seq<GraphicsInstruction>,
    atlas: AtlasTextureInfoMap,
    white: Uv,
    feathering: int,
)
    requires
        stage_rendered(renderables, kept, batches, instructions, atlas, white, feathering),
    ensures
        kept_of(kept, instructions),
        batches_of(batches, keys_of(kept, instructions, atlas)),
        batches.len() == runs(keys_of(kept, instructions, atlas)),
        renderables.len() <= runs(keys_of(kept, instructions, atlas)),
{
    reveal(stage_rendered);
}

/// Turns the instructions of one stage into what the renderer draws: the
/// instructions are batched, and every batch whose mesh has something to
/// draw becomes one renderable with the texture and the clip rectangle of the
/// batch, in the order of the batches. There are no more renderables than
/// there are maximal runs of instructions that share texture and clip.
/// What `drawlist` held is lost.
pub fn render_stage(
    drawlist: &mut DrawList,
    instructions: &Vec<GraphicsInstruction>,
    atlas: &AtlasTextureInfoMap,
    white_texture_uv: Uv,
) -> (renderables: Vec<Renderable>)
    requires
        old(drawlist).wf(),
        instructions_ok(instructions@),
    ensures
        final(drawlist).wf(),
        final(drawlist).feather() == old(drawlist).feather(),
        exists|kept: Seq<usize>, batches: Seq<Batch>| #[trigger]
            stage_rendered(
                renderables@,
                kept,
                batches,
                instructions@,
                *atlas,
                white_texture_uv,
                old(drawlist).feather(),
            ),
        exists|kept: Seq<usize>|
            #[trigger] kept_of(kept, instructions@) && renderables@.len() <= runs(
                keys_of(kept, instructions@, *atlas),
            ),
        forall|j: int|
            0 <= j < renderables@.len() ==> (#[trigger] renderables@[j]).mesh.wf()
                && renderables@[j].mesh.vertices@.len() > 0 && renderables@[j].mesh.indices@.len()
                > 0,
{
    drawlist.clear();
    let mut batcher = GraphicsInstructionBatcher::new(instructions, atlas);
    let mut out: Vec<Renderable> = Vec::new();
    let total = batcher.len();
    let ghost kept = batcher.kept();
    let ghost batches = batcher.batches();
    let ghost feathering = drawlist.feather();
    let mut b: usize = 0;
    while b < total
        invariant
            b <= total,
            total == batches.len(),
            batcher.kept() == kept,
            batcher.batches() == batches,
            batcher.given() == b,
            kept_of(kept, instructions@),
            batches_of(batches, keys_of(kept, instructions@, *atlas)),
            instructions_ok(instructions@),
            drawlist.wf(),
            drawlist.feather() == feathering,
            feathering == old(drawlist).feather(),
            drawlist.mesh().vertices@.len() == 0,
            drawlist.mesh().indices@.len() == 0,
            out@.len() <= b,
            batches_rendered(
                out@,
                kept,
                batches,
                instructions@,
                *atlas,
                white_texture_uv,
                feathering,
                b as int,
            ),
            forall|j: int|
                0 <= j < out@.len() ==> (#[trigger] out@[j]).mesh.wf() && out@[j].mesh.vertices@.len()
                    > 0 && out@[j].mesh.indices@.len() > 0,
        decreases total - b,
    {
        match batcher.next() {
            None => {},
            Some(batch) => {
                assert(batch == batches[b as int]);
                assert(keys_of(kept, instructions@, *atlas).len() == kept.len());
                let positions = batcher.instructions_of(&batch);
                let ghost mid = out@;
                render_batch(
                    drawlist,
                    instructions,
                    &positions,
                    atlas,
                    &batch,
                    white_texture_uv,
                    &mut out,
                );
                assert(last_batch_rendered(
                    mid,
                    out@,
                    kept,
                    batches,
                    instructions@,
                    *atlas,
                    white_texture_uv,
                    feathering,
                    b as int + 1,
                ));
            },
        }
        b += 1;
    }
    proof {
        reveal(stage_rendered);
        assert(stage_rendered(
            out@,
            kept,
            batches,
            instructions@,
            *atlas,
            white_texture_uv,
            feathering,
        ));
    }
    out
}

/// Whether `now` is `mid` with what a batch gives whose instructions are
/// those at `positions`.
#[verifier::opaque]
pub open spec fn batch_rendered(
    mid: Seq<Renderable>,
    now: Seq<Renderable>,
    instructions: Seq<GraphicsInstruction>,
    positions: Seq<usize>,
    batch: Batch,
    atlas: AtlasTextureInfoMap,
    white: Uv,
    feathering: int,
) -> bool {
    exists|built: Mesh|
        {
            &&& #[trigger] batch_mesh(built, instructions, positions, atlas, white, feathering)
            &&& built.wf()
            &&& if built.vertices@.len() == 0 || built.indices@.len() == 0 {
                now == mid
            } else {
                &&& now.len() == mid.len() + 1
                &&& now.drop_last() == mid
                &&& carries(now.last(), built, batch)
            }
        }
}

/// Builds the mesh of one batch in the empty `drawlist` and puts the
/// renderable that carries it behind `out`, unless the mesh has nothing to
/// draw.
fn render_batch(
    drawlist: &mut DrawList,
    instructions: &Vec<GraphicsInstruction>,
    positions: &Vec<usize>,
    atlas: &AtlasTextureInfoMap,
    batch: &Batch,
    white_texture_uv: Uv,
    out: &mut Vec<Renderable>,
)
    requires
        old(drawlist).wf(),
        old(drawlist).mesh().vertices@.len() == 0,
        old(drawlist).mesh().indices@.len() == 0,
        forall|k: int| 0 <= k < positions@.len() ==> (#[trigger] positions@[k]) < instructions@.len(),
        instructions_ok(instructions@),
        forall|j: int|
            0 <= j < old(out)@.len() ==> (#[trigger] old(out)@[j]).mesh.wf() && old(out)@[j].mesh.vertices@.len() > 0 && old(out)@[j].mesh.indices@.len() > 0,
    ensures
        final(drawlist).wf(),
        final(drawlist).feather() == old(drawlist).feather(),
        final(drawlist).mesh().vertices@.len() == 0,
        final(drawlist).mesh().indices@.len() == 0,
        final(out)@.len() <= old(out)@.len() + 1,
        batch_rendered(
            old(out)@,
            final(out)@,
            instructions@,
            positions@,
            *batch,
            *atlas,
            white_texture_uv,
            old(drawlist).feather(),
        ),
        forall|j: int|
            0 <= j < final(out)@.len() ==> (#[trigger] final(out)@[j]).mesh.wf() && final(out)@[j].mesh.vertices@.len() > 0 && final(out)@[j].mesh.indices@.len() > 0,
{
    let ghost start = drawlist.mesh();
    let ghost feathering = drawlist.feather();
    let made = build_renderable(drawlist, instructions, positions, atlas, batch, white_texture_uv);
    let ghost built = choose|built: Mesh|
        {
            &&& #[trigger] instructions_drawn(
                start,
                built,
                instructions@,
                positions@,
                *atlas,
                white_texture_uv,
                feathering,
                positions@.len() as int,
            )
            &&& built.wf()
            &&& made is None <==> (built.vertices@.len() == 0 || built.indices@.len() == 0)
            &&& made matches Some(r) ==> {
                &&& r.mesh.vertices@ == built.vertices@
                &&& r.mesh.indices@ == built.indices@
                &&& r.mesh.texture == batch.renderer_texture
                &&& r.clip_rect == batch.clip_rect
            }
        };
    match made {
        Some(renderable) => {
            out.push(renderable);
            assert(out@.drop_last() =~= old(out)@);
        },
        None => {},
    }
    assert(batch_mesh(built, instructions@, positions@, *atlas, white_texture_uv, feathering));
    reveal(batch_rendered);
}

} // verus!
