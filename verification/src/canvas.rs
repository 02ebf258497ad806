//! The canvas: draw calls become instructions, which are grouped in stages
//! that share one state, a transform and a clip rectangle; a render pass
//! turns the stages into meshes.
//!
//! The canvas asks nobody for anything. Where the tiles of the atlas lie is
//! told to it, key by key, before a render pass.

use crate::atlas::AtlasTextureInfo;
use crate::atlas::AtlasTextureInfoMap;
use crate::batch::everything;
use crate::batch::clip_everything;
use crate::batch::instructions_ok;
use crate::batch::kept_of;
use crate::batch::keys_of;
use crate::batch::runs;
use crate::batch::render_stage;
use crate::batch::stage_rendered;
use crate::batch::Batch;
use crate::batch::GraphicsInstruction;
use crate::batch::Renderable;
use crate::brush::Brush;
use crate::color::Color;
use crate::draw_list::primitive_ok;
use crate::draw_list::DrawList;
use crate::math::Corners;
use crate::math::Rect;
use crate::mesh::AtlasKey;
use crate::mesh::TextureId;
use crate::mesh::Uv;
use crate::path::Path;
use crate::path::Point;
use crate::path_brush::PathBrush;
use crate::primitives::Circle;
use crate::primitives::Primitive;
use crate::primitives::Quad;
use crate::transform::Transform;
use vstd::prelude::*;

verus! {

/// The width of the feather of antialiased shapes: two pixels.
pub const AA_SIZE: i32 = 512;

/// What a draw call is placed and clipped by.
#[derive(Debug, Clone, Copy, PartialEq, Eq, Structural)]
pub struct CanvasState {
    pub transform: Transform,
    pub clip_rect: Rect,
}

impl CanvasState {
    /// The state of a new canvas: everything in place, nothing clipped.
    pub open spec fn initial() -> CanvasState {
        CanvasState { transform: Transform::identity_map(), clip_rect: everything() }
    }

    /// Whether the clip rectangle has a size.
    pub open spec fn wf(&self) -> bool {
        self.clip_rect.width >= 0 && self.clip_rect.height >= 0
    }

    /// The state of a new canvas.
    pub fn new() -> (state: CanvasState)
        ensures
            state == CanvasState::initial(),
    {
        CanvasState { transform: Transform::identity(), clip_rect: clip_everything() }
    }
}

impl Default for CanvasState {
    fn default() -> (state: CanvasState)
        ensures
            state == CanvasState::initial(),
    {
        CanvasState::new()
    }
}

/// The instructions that were drawn in one state.
pub struct Stage {
    pub state: CanvasState,
    pub instructions: Vec<GraphicsInstruction>,
}

/// A stage as a value: its state and its instructions in order.
pub struct StageView {
    pub state: CanvasState,
    pub instructions: Seq<GraphicsInstruction>,
}

impl View for Stage {
    type V = StageView;

    open spec fn view(&self) -> StageView {
        StageView { state: self.state, instructions: self.instructions@ }
    }
}

/// A canvas as a value.
pub struct CanvasView {
    /// The stages that are closed, oldest first.
    pub stages: Seq<StageView>,
    /// The instructions drawn since the last stage was closed.
    pub pending: Seq<GraphicsInstruction>,
    /// The states that were saved, oldest first.
    pub stack: Seq<CanvasState>,
    /// The state that the next draw call is made in.
    pub state: CanvasState,
    /// The colour that a render pass clears its target with.
    pub clear_color: Color,
    /// What the render passes so far gave the renderer to draw.
    pub renderables: Seq<Renderable>,
    /// The tiles of the atlas that are known.
    pub atlas: AtlasTextureInfoMap,
    /// The texture coordinate of the white tile in its texture.
    pub white_uv: Uv,
}

/// The canvas after the stage of the pending instructions was closed.
/// Without pending instructions there is no stage to close.
pub open spec fn staged(c: CanvasView) -> CanvasView {
    if c.pending.len() > 0 {
        CanvasView {
            stages: c.stages.push(StageView { state: c.state, instructions: c.pending }),
            pending: Seq::empty(),
            ..c
        }
    } else {
        c
    }
}

/// The instruction that a draw call in the state `state` queues.
pub open spec fn placed(
    primitive: Primitive,
    brush: Brush,
    texture_id: TextureId,
    state: CanvasState,
) -> GraphicsInstruction {
    GraphicsInstruction {
        primitive,
        brush,
        texture_id,
        clip_rect: state.clip_rect,
        transform: Some(state.transform),
    }
}

/// The canvas after the instruction `ins` was queued.
pub open spec fn queued(c: CanvasView, ins: GraphicsInstruction) -> CanvasView {
    CanvasView { pending: c.pending.push(ins), ..c }
}

/// The brush of a shape that takes its colours from its texture: an opaque
/// white fill.
pub open spec fn white_fill() -> Brush {
    Brush {
        fill_style: crate::brush::FillStyle { color: Color { r: 255, g: 255, b: 255, a: 255 } },
        ..Brush::blank()
    }
}

/// The rectangle `rect` with sharp corners, as a shape.
pub open spec fn plain_quad(rect: Rect) -> Primitive {
    Primitive::Quad(
        Quad {
            bounds: rect,
            corners: Corners { top_left: 0, top_right: 0, bottom_right: 0, bottom_left: 0 },
        },
    )
}

/// The keys `keys`, and behind them the key of the tile that `ins` is
/// textured with, unless it is among them.
pub open spec fn with_key(keys: Seq<AtlasKey>, ins: GraphicsInstruction) -> Seq<AtlasKey> {
    match ins.texture_id {
        TextureId::AtlasKey(key) => if keys.contains(key) {
            keys
        } else {
            keys.push(key)
        },
        _ => keys,
    }
}

/// The keys `keys`, and behind them the keys that the first `n` of
/// `instructions` name, each once, in the order in which they are named
/// first.
pub open spec fn with_keys(
    keys: Seq<AtlasKey>,
    instructions: Seq<GraphicsInstruction>,
    n: int,
) -> Seq<AtlasKey>
    decreases n,
{
    if n <= 0 {
        keys
    } else {
        with_key(with_keys(keys, instructions, n - 1), instructions[n - 1])
    }
}

/// The keys that the instructions of the first `n` of `stages` name, each
/// once, in the order in which they are named first.
pub open spec fn stage_keys(stages: Seq<StageView>, n: int) -> Seq<AtlasKey>
    decreases n,
{
    if n <= 0 {
        Seq::empty()
    } else {
        with_keys(
            stage_keys(stages, n - 1),
            stages[n - 1].instructions,
            stages[n - 1].instructions.len() as int,
        )
    }
}

/// Whether `renderables` is what the instructions of one stage give the
/// renderer to draw: one renderable for each batch whose mesh has something
/// to draw, in the order of the batches.
pub open spec fn stage_drawn(
    renderables: Seq<Renderable>,
    instructions: Seq<GraphicsInstruction>,
    atlas: AtlasTextureInfoMap,
    white: Uv,
) -> bool {
    exists|kept: Seq<usize>, batches: Seq<Batch>| #[trigger]
        stage_rendered(renderables, kept, batches, instructions, atlas, white, AA_SIZE as int)
}

/// A stage gives the renderer no more to draw than there are maximal runs,
/// among its instructions that draw something, of instructions that share
/// texture and clip rectangle.
pub proof fn lemma_stage_drawn_count(
    renderables: Seq<Renderable>,
    instructions: Seq<GraphicsInstruction>,
    atlas: AtlasTextureInfoMap,
    white: Uv,
)
    requires
        stage_drawn(renderables, instructions, atlas, white),
    ensures
        exists|kept: Seq<usize>|
            #[trigger] kept_of(kept, instructions) && renderables.len() <= runs(
                keys_of(kept, instructions, atlas),
            ),
{
    let (kept, batches) = choose|kept: Seq<usize>, batches: Seq<Batch>| #[trigger]
        stage_rendered(renderables, kept, batches, instructions, atlas, white, AA_SIZE as int);
    crate::batch::lemma_stage_count(
        renderables,
        kept,
        batches,
        instructions,
        atlas,
        white,
        AA_SIZE as int,
    );
}

/// Whether `now` is `mid` with what stage `k - 1` gives behind it.
pub open spec fn last_stage_drawn(
    mid: Seq<Renderable>,
    now: Seq<Renderable>,
    stages: Seq<StageView>,
    atlas: AtlasTextureInfoMap,
    white: Uv,
    k: int,
) -> bool {
    &&& mid.len() <= now.len()
    &&& now.take(mid.len() as int) == mid
    &&& stage_drawn(now.skip(mid.len() as int), stages[k - 1].instructions, atlas, white)
}

/// Whether `now` is `before` with what the first `upto` of `stages` give
/// behind it, stage after stage.
pub open spec fn stages_drawn(
    before: Seq<Renderable>,
    now: Seq<Renderable>,
    stages: Seq<StageView>,
    atlas: AtlasTextureInfoMap,
    white: Uv,
    upto: int,
) -> bool
    decreases upto,
{
    if upto <= 0 {
        now == before
    } else {
        exists|mid: Seq<Renderable>|
            stages_drawn(before, mid, stages, atlas, white, upto - 1)
                && #[trigger] last_stage_drawn(mid, now, stages, atlas, white, upto)
    }
}

/// The stages as values.
pub open spec fn stage_views(stages: Seq<Stage>) -> Seq<StageView> {
    Seq::new(stages.len(), |i: int| stages[i]@)
}

/// Whether `key` is one of `keys`.
fn has_key(keys: &Vec<AtlasKey>, key: &AtlasKey) -> (found: bool)
    ensures
        found == keys@.contains(*key),
{
    let mut i: usize = 0;
    while i < keys.len()
        invariant
            i <= keys@.len(),
            forall|j: int| 0 <= j < i ==> keys@[j] != *key,
        decreases keys@.len() - i,
    {
        if keys[i] == *key {
            return true;
        }
        i += 1;
    }
    false
}

/// Moves the renderables of `from` behind those of `target`, in their
/// order.
fn move_behind(target: &mut Vec<Renderable>, from: Vec<Renderable>)
    ensures
        final(target)@ == old(target)@ + from@,
{
    let mut from = from;
    let ghost all = from@;
    let mut turned: Vec<Renderable> = Vec::new();
    while from.len() > 0
        invariant
            from@.len() + turned@.len() == all.len(),
            from@ == all.take(from@.len() as int),
            forall|j: int| 0 <= j < turned@.len() ==> turned@[j] == all[all.len() - 1 - j],
        decreases from@.len(),
    {
        let last = from.pop().unwrap();
        turned.push(last);
    }
    while turned.len() > 0
        invariant
            turned@.len() <= all.len(),
            forall|j: int| 0 <= j < turned@.len() ==> turned@[j] == all[all.len() - 1 - j],
            target@ == old(target)@ + all.take(all.len() - turned@.len()),
        decreases turned@.len(),
    {
        let ghost before = target@;
        let ghost left = turned@.len() as int;
        let next = turned.pop().unwrap();
        target.push(next);
        assert(target@ =~= old(target)@ + all.take(all.len() - (left - 1)));
    }
    assert(all.take(all.len() as int) =~= all);
}

/// Gives, behind what `out` holds, what every stage gives the renderer to
/// draw, stage after stage.
fn render_stages(
    stages: &Vec<Stage>,
    atlas: &AtlasTextureInfoMap,
    white_texture_uv: Uv,
    out: &mut Vec<Renderable>,
)
    requires
        forall|i: int|
            0 <= i < stages@.len() ==> instructions_ok((#[trigger] stages@[i]).instructions@),
    ensures
        stages_drawn(
            old(out)@,
            final(out)@,
            stage_views(stages@),
            *atlas,
            white_texture_uv,
            stages@.len() as int,
        ),
{
    let mut drawlist = DrawList::default();
    drawlist.feathering(AA_SIZE);
    let ghost views = stage_views(stages@);
    let mut s: usize = 0;
    while s < stages.len()
        invariant
            s <= stages@.len(),
            drawlist.wf(),
            views == stage_views(stages@),
            forall|i: int|
                0 <= i < stages@.len() ==> instructions_ok((#[trigger] stages@[i]).instructions@),
            drawlist.feather() == AA_SIZE,
            stages_drawn(old(out)@, out@, views, *atlas, white_texture_uv, s as int),
        decreases stages@.len() - s,
    {
        let ghost mid = out@;
        let renderables = render_stage(
            &mut drawlist,
            &stages[s].instructions,
            atlas,
            white_texture_uv,
        );
        let ghost given = renderables@;
        move_behind(out, renderables);
        proof {
            assert(views[s as int].instructions == stages@[s as int].instructions@);
            assert(out@.take(mid.len() as int) =~= mid);
            assert(out@.skip(mid.len() as int) =~= given);
            assert(stage_drawn(given, views[s as int].instructions, *atlas, white_texture_uv));
            assert(last_stage_drawn(mid, out@, views, *atlas, white_texture_uv, s as int + 1));
        }
        s += 1;
    }
}

/// A canvas.
pub struct Canvas {
    stages: Vec<Stage>,
    pending: Vec<GraphicsInstruction>,
    atlas_info_map: AtlasTextureInfoMap,
    state_stack: Vec<CanvasState>,
    current_state: CanvasState,
    cached_renderables: Vec<Renderable>,
    white_texture_uv: Uv,
    clear_color: Color,
}

impl View for Canvas {
    type V = CanvasView;

    closed spec fn view(&self) -> CanvasView {
        CanvasView {
            stages: stage_views(self.stages@),
            pending: self.pending@,
            stack: self.state_stack@,
            state: self.current_state,
            clear_color: self.clear_color,
            renderables: self.cached_renderables@,
            atlas: self.atlas_info_map,
            white_uv: self.white_texture_uv,
        }
    }
}

/// Whether the canvas is in order: every clip rectangle has a size, and
/// every shape that was drawn can be built.
pub open spec fn canvas_ok(c: CanvasView) -> bool {
    &&& c.state.wf()
    &&& forall|i: int| 0 <= i < c.stack.len() ==> (#[trigger] c.stack[i]).wf()
    &&& instructions_ok(c.pending)
    &&& forall|i: int| 0 <= i < c.stages.len() ==> instructions_ok((#[trigger] c.stages[i]).instructions)
}

impl Canvas {
    /// Whether the canvas is in order.
    pub open spec fn wf(&self) -> bool {
        canvas_ok(self@)
    }

    /// A canvas on which nothing was drawn, in the initial state, with a
    /// white clear colour. `white` is the tile of the atlas that untextured
    /// shapes are textured with: they take the texture coordinate of its
    /// corner.
    pub fn new(white: &AtlasTextureInfo) -> (canvas: Canvas)
        ensures
            canvas.wf(),
            canvas@.stages == Seq::<StageView>::empty(),
            canvas@.pending == Seq::<GraphicsInstruction>::empty(),
            canvas@.stack == Seq::<CanvasState>::empty(),
            canvas@.state == CanvasState::initial(),
            canvas@.clear_color == (Color { r: 255, g: 255, b: 255, a: 255 }),
            canvas@.renderables == Seq::<Renderable>::empty(),
            canvas@.white_uv == white.in_atlas(Uv { u: 0, v: 0 }),
            forall|key: AtlasKey| canvas@.atlas.info_of(key) is None,
    {
        let canvas = Canvas {
            stages: Vec::new(),
            pending: Vec::new(),
            atlas_info_map: AtlasTextureInfoMap::new(),
            state_stack: Vec::new(),
            current_state: CanvasState::new(),
            cached_renderables: Vec::new(),
            white_texture_uv: white.uv_to_atlas_space(Uv { u: 0, v: 0 }),
            clear_color: Color::white(),
        };
        assert(canvas@.stages =~= Seq::<StageView>::empty());
        canvas
    }

    /// The rectangle that the next draw call is clipped to.
    pub fn get_clip_rect(&self) -> (rect: Rect)
        ensures
            rect == self@.state.clip_rect,
    {
        self.current_state.clip_rect
    }

    /// The colour that a render pass clears its target with.
    pub fn get_clear_color(&self) -> (color: Color)
        ensures
            color == self@.clear_color,
    {
        self.clear_color
    }

    /// What the render passes so far gave the renderer to draw.
    pub fn renderables(&self) -> (list: &Vec<Renderable>)
        ensures
            list@ == self@.renderables,
    {
        &self.cached_renderables
    }

    /// Sets the colour that a render pass clears its target with.
    pub fn clear_color(&mut self, clear_color: Color)
        ensures
            final(self)@ == (CanvasView { clear_color, ..old(self)@ }),
    {
        self.clear_color = clear_color;
    }

    /// Closes the stage of the instructions drawn so far.
    pub fn stage_changes(&mut self)
        ensures
            final(self)@ == staged(old(self)@),
            old(self).wf() ==> final(self).wf(),
    {
        if self.pending.len() > 0 {
            let mut instructions: Vec<GraphicsInstruction> = Vec::new();
            std::mem::swap(&mut instructions, &mut self.pending);
            self.stages.push(Stage { state: self.current_state, instructions });
            assert(self@.stages =~= old(self)@.stages.push(
                StageView { state: old(self)@.state, instructions: old(self)@.pending },
            ));
            assert(self@.pending =~= Seq::<GraphicsInstruction>::empty());
        }
    }

    /// Saves the state, to be restored later.
    pub fn save(&mut self)
        ensures
            final(self)@ == (CanvasView {
                stack: old(self)@.stack.push(old(self)@.state),
                ..staged(old(self)@)
            }),
            old(self).wf() ==> final(self).wf(),
    {
        self.stage_changes();
        self.state_stack.push(self.current_state);
    }

    /// Goes back to the state that was saved last. Nothing changes where
    /// none is saved.
    pub fn restore(&mut self)
        ensures
            final(self)@ == if old(self)@.stack.len() == 0 {
                old(self)@
            } else {
                CanvasView {
                    state: old(self)@.stack.last(),
                    stack: old(self)@.stack.drop_last(),
                    ..staged(old(self)@)
                }
            },
            old(self).wf() ==> final(self).wf(),
    {
        match self.state_stack.pop() {
            Some(state) => {
                assert(state == old(self)@.stack[old(self)@.stack.len() - 1]);
                self.stage_changes();
                self.current_state = state;
                proof {
                    if old(self).wf() {
                        assert forall|i: int| 0 <= i < self@.stack.len() implies (
                        #[trigger] self@.stack[i]).wf() by {
                            assert(self@.stack[i] == old(self)@.stack[i]);
                        }
                    }
                }
            },
            None => {
                assert(self@.stack =~= old(self)@.stack);
            },
        }
    }

    /// Goes back to the initial state and a white clear colour, and forgets
    /// the states that were saved.
    pub fn reset(&mut self)
        ensures
            final(self)@ == (CanvasView {
                clear_color: Color { r: 255, g: 255, b: 255, a: 255 },
                state: CanvasState::initial(),
                stack: Seq::empty(),
                ..staged(old(self)@)
            }),
            old(self).wf() ==> final(self).wf(),
    {
        self.stage_changes();
        self.clear_color = Color::white();
        self.current_state = CanvasState::new();
        self.state_stack.clear();
    }

    /// Clips what is drawn from now on to `rect` as well.
    pub fn clip(&mut self, rect: &Rect)
        requires
            old(self).wf(),
            rect.width >= 0,
            rect.height >= 0,
        ensures
            final(self).wf(),
            final(self)@ == (CanvasView {
                state: CanvasState {
                    clip_rect: old(self)@.state.clip_rect.meet(*rect),
                    ..old(self)@.state
                },
                ..staged(old(self)@)
            }),
    {
        self.stage_changes();
        self.current_state.clip_rect = self.current_state.clip_rect.intersect(rect);
    }

    /// Clips nothing of what is drawn from now on.
    pub fn reset_clip(&mut self)
        ensures
            final(self)@ == (CanvasView {
                state: CanvasState { clip_rect: everything(), ..old(self)@.state },
                ..staged(old(self)@)
            }),
            old(self).wf() ==> final(self).wf(),
    {
        self.stage_changes();
        self.current_state.clip_rect = clip_everything();
    }

    /// Moves what is drawn from now on by `(dx, dy)`.
    pub fn translate(&mut self, dx: i32, dy: i32)
        ensures
            final(self)@ == (CanvasView {
                state: CanvasState {
                    transform: old(self)@.state.transform.after(
                        Transform { dx, dy, ..Transform::identity_map() },
                    ),
                    ..old(self)@.state
                },
                ..staged(old(self)@)
            }),
            old(self).wf() ==> final(self).wf(),
    {
        self.stage_changes();
        self.current_state.transform = self.current_state.transform.translate(dx, dy);
    }

    /// Scales what is drawn from now on by `sx` and `sy`, in sixteen
    /// fractional bits.
    pub fn scale(&mut self, sx: i32, sy: i32)
        ensures
            final(self)@ == (CanvasView {
                state: CanvasState {
                    transform: old(self)@.state.transform.after(
                        Transform { xx: sx, yy: sy, ..Transform::identity_map() },
                    ),
                    ..old(self)@.state
                },
                ..staged(old(self)@)
            }),
            old(self).wf() ==> final(self).wf(),
    {
        self.stage_changes();
        self.current_state.transform = self.current_state.transform.scale(sx, sy);
    }

    /// Turns what is drawn from now on by the angle whose cosine and sine
    /// are `cos` and `sin`, in sixteen fractional bits.
    pub fn rotate(&mut self, cos: i32, sin: i32)
        requires
            sin > i32::MIN,
        ensures
            final(self)@ == (CanvasView {
                state: CanvasState {
                    transform: old(self)@.state.transform.after(
                        Transform { xx: cos, xy: (-sin) as i32, yx: sin, yy: cos, dx: 0, dy: 0 },
                    ),
                    ..old(self)@.state
                },
                ..staged(old(self)@)
            }),
            old(self).wf() ==> final(self).wf(),
    {
        self.stage_changes();
        self.current_state.transform = self.current_state.transform.rotate(cos, sin);
    }

    /// Forgets what was drawn and what the render passes gave. The state,
    /// the saved states and the tiles that are known stay.
    pub fn clear(&mut self)
        ensures
            final(self)@ == (CanvasView {
                stages: Seq::empty(),
                pending: Seq::empty(),
                renderables: Seq::empty(),
                ..old(self)@
            }),
            old(self).wf() ==> final(self).wf(),
    {
        self.stages.clear();
        self.pending.clear();
        self.cached_renderables.clear();
        assert(self@.stages =~= Seq::<StageView>::empty());
    }

    /// Queues the instruction in the state of the moment.
    fn add(&mut self, primitive: Primitive, brush: Brush, texture_id: TextureId)
        requires
            old(self).wf(),
            primitive_ok(primitive),
        ensures
            final(self).wf(),
            final(self)@ == queued(
                old(self)@,
                placed(primitive, brush, texture_id, old(self)@.state),
            ),
    {
        let instruction = GraphicsInstruction {
            primitive,
            brush,
            texture_id,
            clip_rect: self.current_state.clip_rect,
            transform: Some(self.current_state.transform),
        };
        self.pending.push(instruction);
        proof {
            assert(self@.stages =~= old(self)@.stages);
            assert forall|i: int| 0 <= i < self@.pending.len() implies primitive_ok(
                (#[trigger] self@.pending[i]).primitive,
            ) by {
                if i < old(self)@.pending.len() {
                    assert(self@.pending[i] == old(self)@.pending[i]);
                }
            }
            assert(instructions_ok(self@.pending));
            assert(self@.stack == old(self)@.stack);
            assert(self@.stages == old(self)@.stages);
        }
    }

    /// Draws the shape `primitive` with `brush`, untextured.
    pub fn draw_primitive(&mut self, primitive: Primitive, brush: Brush)
        requires
            old(self).wf(),
            primitive_ok(primitive),
        ensures
            final(self).wf(),
            final(self)@ == queued(
                old(self)@,
                placed(primitive, brush, TextureId::white(), old(self)@.state),
            ),
    {
        self.add(primitive, brush, TextureId::white_texture());
    }

    /// Draws `path`, each subpath with the brush that `brush` has for it.
    pub fn draw_path(&mut self, path: Path, brush: PathBrush)
        requires
            old(self).wf(),
            path.wf(),
        ensures
            final(self).wf(),
            final(self)@ == queued(
                old(self)@,
                placed(
                    Primitive::Path { path, brush },
                    white_fill(),
                    TextureId::white(),
                    old(self)@.state,
                ),
            ),
    {
        self.draw_primitive(Primitive::Path { path, brush }, Brush::filled(Color::white()));
    }

    /// Draws the rectangle `rect` with `brush`.
    pub fn draw_rect(&mut self, rect: &Rect, brush: Brush)
        requires
            old(self).wf(),
            rect.wf(),
        ensures
            final(self).wf(),
            final(self)@ == queued(
                old(self)@,
                placed(
                    plain_quad(*rect),
                    brush,
                    TextureId::white(),
                    old(self)@.state,
                ),
            ),
    {
        self.draw_primitive(Primitive::Quad(Quad::new().rect(*rect)), brush);
    }

    /// Draws the rectangle `rect` with rounded corners with `brush`.
    pub fn draw_round_rect(&mut self, rect: &Rect, corners: &Corners, brush: Brush)
        requires
            old(self).wf(),
            primitive_ok(Primitive::Quad(Quad { bounds: *rect, corners: *corners })),
        ensures
            final(self).wf(),
            final(self)@ == queued(
                old(self)@,
                placed(
                    Primitive::Quad(Quad { bounds: *rect, corners: *corners }),
                    brush,
                    TextureId::white(),
                    old(self)@.state,
                ),
            ),
    {
        self.draw_primitive(Primitive::Quad(Quad::new().rect(*rect).corners(*corners)), brush);
    }

    /// Draws the texture `texture_id` into the rectangle `rect`.
    pub fn draw_image(&mut self, rect: &Rect, texture_id: &TextureId)
        requires
            old(self).wf(),
            rect.wf(),
        ensures
            final(self).wf(),
            final(self)@ == queued(
                old(self)@,
                placed(
                    plain_quad(*rect),
                    white_fill(),
                    *texture_id,
                    old(self)@.state,
                ),
            ),
    {
        self.add(
            Primitive::Quad(Quad::new().rect(*rect)),
            Brush::filled(Color::white()),
            *texture_id,
        );
    }

    /// Draws the texture `texture_id` into the rectangle `rect` with rounded
    /// corners.
    pub fn draw_image_rounded(&mut self, rect: &Rect, corners: &Corners, texture_id: &TextureId)
        requires
            old(self).wf(),
            primitive_ok(Primitive::Quad(Quad { bounds: *rect, corners: *corners })),
        ensures
            final(self).wf(),
            final(self)@ == queued(
                old(self)@,
                placed(
                    Primitive::Quad(Quad { bounds: *rect, corners: *corners }),
                    white_fill(),
                    *texture_id,
                    old(self)@.state,
                ),
            ),
    {
        self.add(
            Primitive::Quad(Quad::new().rect(*rect).corners(*corners)),
            Brush::filled(Color::white()),
            *texture_id,
        );
    }

    /// Draws the circle about `(cx, cy)` with `brush`.
    pub fn draw_circle(&mut self, cx: i32, cy: i32, radius: i32, brush: Brush)
        requires
            old(self).wf(),
            primitive_ok(Primitive::Circle(Circle { center: Point { x: cx, y: cy }, radius })),
        ensures
            final(self).wf(),
            final(self)@ == queued(
                old(self)@,
                placed(
                    Primitive::Circle(Circle { center: Point { x: cx, y: cy }, radius }),
                    brush,
                    TextureId::white(),
                    old(self)@.state,
                ),
            ),
    {
        self.draw_primitive(Primitive::Circle(Circle::new().pos(cx, cy).radius(radius)), brush);
    }

    /// The keys of the atlas tiles that the instructions of the closed
    /// stages are textured with, each once, in the order in which they are
    /// named first.
    pub fn get_required_atlas_keys(&self) -> (keys: Vec<AtlasKey>)
        ensures
            keys@ == stage_keys(self@.stages, self@.stages.len() as int),
    {
        let mut keys: Vec<AtlasKey> = Vec::new();
        let mut s: usize = 0;
        while s < self.stages.len()
            invariant
                s <= self.stages@.len(),
                self@.stages.len() == self.stages@.len(),
                keys@ == stage_keys(self@.stages, s as int),
            decreases self.stages@.len() - s,
        {
            let stage = &self.stages[s];
            assert(self@.stages[s as int] == stage@);
            let mut i: usize = 0;
            while i < stage.instructions.len()
                invariant
                    i <= stage.instructions@.len(),
                    keys@ == with_keys(
                        stage_keys(self@.stages, s as int),
                        stage.instructions@,
                        i as int,
                    ),
                decreases stage.instructions@.len() - i,
            {
                match stage.instructions[i].texture_id {
                    TextureId::AtlasKey(key) => {
                        if !has_key(&keys, &key) {
                            keys.push(key);
                        }
                    },
                    _ => {},
                }
                i += 1;
            }
            s += 1;
        }
        keys
    }

    /// Whether the tile of `key` is known.
    pub fn knows_atlas_key(&self, key: &AtlasKey) -> (known: bool)
        ensures
            known == self@.atlas.info_of(*key) is Some,
    {
        self.atlas_info_map.contains_key(key)
    }

    /// Records where the tile of `key` lies, unless that is known already.
    /// Returns whether it was recorded.
    pub fn record_atlas_info(&mut self, key: AtlasKey, info: AtlasTextureInfo) -> (recorded: bool)
        ensures
            recorded == old(self)@.atlas.info_of(key) is None,
            final(self)@.atlas.info_of(key) == if recorded {
                Some(info)
            } else {
                old(self)@.atlas.info_of(key)
            },
            forall|other: AtlasKey|
                other != key ==> final(self)@.atlas.info_of(other) == old(self)@.atlas.info_of(
                    other,
                ),
            final(self)@ == (CanvasView { atlas: final(self)@.atlas, ..old(self)@ }),
            old(self).wf() ==> final(self).wf(),
    {
        let recorded = self.atlas_info_map.insert(key, info);
        assert(self@.stages =~= old(self)@.stages);
        recorded
    }

    /// Turns everything drawn so far into what the renderer draws: the
    /// stage of the pending instructions is closed, and then every stage
    /// gives, behind what the passes before gave, one renderable for each of
    /// its batches whose mesh has something to draw. Antialiased shapes get
    /// a feather of `AA_SIZE`.
    pub fn prepare_for_render(&mut self)
        requires
            old(self).wf(),
        ensures
            final(self).wf(),
            final(self)@ == (CanvasView {
                renderables: final(self)@.renderables,
                ..staged(old(self)@)
            }),
            stages_drawn(
                old(self)@.renderables,
                final(self)@.renderables,
                final(self)@.stages,
                final(self)@.atlas,
                final(self)@.white_uv,
                final(self)@.stages.len() as int,
            ),
    {
        self.stage_changes();
        proof {
            assert forall|i: int| 0 <= i < self.stages@.len() implies instructions_ok(
                (#[trigger] self.stages@[i]).instructions@,
            ) by {
                assert(self@.stages[i] == self.stages@[i]@);
            }
        }
        render_stages(
            &self.stages,
            &self.atlas_info_map,
            self.white_texture_uv,
            &mut self.cached_renderables,
        );
    }
}

} // verus!
