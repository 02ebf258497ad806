//! The graphics context of a scene node: shapes are collected into a
//! path, and `fill` and `stroke` turn what was collected into instructions.
//! A fill and a stroke of the same shapes are drawn as one.

use crate::batch::everything;
use crate::batch::clip_everything;
use crate::brush::FillStyle;
use crate::brush::LineCap;
use crate::brush::LineJoin;
use crate::brush::StrokeStyle;
use crate::color::Color;
use crate::math::Corners;
use crate::math::Rect;
use crate::path::builder::PathBuilder;
use crate::path::in_subpath;
use crate::path::points_used;
use crate::path::PathEventsIter;
use crate::path::PathVerb;
use crate::path::Point;
use crate::transform::Transform;
use vstd::prelude::*;

verus! {

/// The positions `start..end` of a list.
#[derive(Debug, Clone, Copy, PartialEq, Eq, Structural, Hash)]
pub struct Span {
    pub start: usize,
    pub end: usize,
}

/// One shape of a graphics path.
#[derive(Debug, Clone, Copy, PartialEq, Eq, Structural)]
pub enum GfxPathInstruction {
    Rect { bounds: Rect },
    RoundRect { bounds: Rect, corners: Corners },
    Circle { center: Point, radius: i32 },
    /// A path, as the points and verbs that it added to the builder of the
    /// graphics path.
    Path { points: Span, verbs: Span },
}

/// The shapes `start..end` of a graphics path: what one fill or stroke
/// draws.
#[derive(Debug, Clone, Copy, PartialEq, Eq, Structural, Hash)]
pub struct GfxPathEntry {
    pub start: usize,
    pub end: usize,
}

/// The shapes of a graphics context, in the order in which they were added,
/// and the entries that fills and strokes have made of them.
pub struct GraphicsPath {
    builder: PathBuilder,
    paths: Vec<GfxPathEntry>,
    instructions: Vec<GfxPathInstruction>,
    instruction_start: usize,
}

impl GraphicsPath {
    /// The shapes added so far.
    pub closed spec fn shapes(&self) -> Seq<GfxPathInstruction> {
        self.instructions@
    }

    /// The entries made so far.
    pub closed spec fn entries(&self) -> Seq<GfxPathEntry> {
        self.paths@
    }

    /// Number of shapes that belong to an entry already.
    pub closed spec fn taken(&self) -> int {
        self.instruction_start as int
    }

    /// The builder that holds the points and verbs of the paths added.
    pub closed spec fn builder(&self) -> PathBuilder {
        self.builder
    }

    /// Whether the path is in order: the entries cut the shapes that were
    /// taken into runs, none of them empty, one after the other.
    pub closed spec fn wf(&self) -> bool {
        &&& self.builder.wf()
        &&& !self.builder.subpath_open()
        &&& self.instruction_start <= self.instructions@.len()
        &&& forall|k: int|
            0 <= k < self.paths@.len() ==> (#[trigger] self.paths@[k]).start < self.paths@[k].end
                <= self.instruction_start
        &&& self.paths@.len() > 0 ==> self.paths@[self.paths@.len() - 1].end
            == self.instruction_start
        &&& self.paths@.len() == 0 ==> self.instruction_start == 0
    }

    /// A well-formed path has taken no more shapes than it holds, and its
    /// entries lie within them.
    pub proof fn lemma_wf(&self)
        requires
            self.wf(),
        ensures
            0 <= self.taken() <= self.shapes().len(),
            forall|k: int|
                0 <= k < self.entries().len() ==> (#[trigger] self.entries()[k]).start
                    < self.entries()[k].end <= self.shapes().len(),
    {
    }

    /// A graphics path without shapes, whose builder holds nothing.
    pub fn new() -> (p: Self)
        ensures
            p.wf(),
            p.shapes().len() == 0,
            p.entries().len() == 0,
            p.taken() == 0,
            p.builder().points() == Seq::<Point>::empty(),
            p.builder().verbs() == Seq::<PathVerb>::empty(),
    {
        GraphicsPath {
            builder: PathBuilder::new(),
            paths: Vec::new(),
            instructions: Vec::new(),
            instruction_start: 0,
        }
    }

    /// Forgets the shapes and the entries. The points and verbs of paths
    /// that were added stay in the builder.
    pub fn clear(&mut self)
        requires
            old(self).wf(),
        ensures
            final(self).wf(),
            final(self).shapes().len() == 0,
            final(self).entries().len() == 0,
            final(self).taken() == 0,
            final(self).builder() == old(self).builder(),
    {
        self.paths.clear();
        self.instructions.clear();
        self.instruction_start = 0;
    }

    /// The shapes of `entry`.
    pub fn get_entry(&self, entry: GfxPathEntry) -> (shapes: &[GfxPathInstruction])
        requires
            entry.start <= entry.end <= self.shapes().len(),
        ensures
            shapes@ == self.shapes().subrange(entry.start as int, entry.end as int),
    {
        vstd::slice::slice_subrange(self.instructions.as_slice(), entry.start, entry.end)
    }

    /// Adds a rectangle.
    pub fn rect(&mut self, rect: Rect)
        requires
            old(self).wf(),
        ensures
            final(self).wf(),
            final(self).shapes() == old(self).shapes().push(GfxPathInstruction::Rect { bounds: rect }),
            final(self).entries() == old(self).entries(),
            final(self).taken() == old(self).taken(),
            final(self).builder() == old(self).builder(),
    {
        self.instructions.push(GfxPathInstruction::Rect { bounds: rect });
    }

    /// Adds a rounded rectangle.
    pub fn round_rect(&mut self, rect: Rect, corners: Corners)
        requires
            old(self).wf(),
        ensures
            final(self).wf(),
            final(self).shapes() == old(self).shapes().push(
                GfxPathInstruction::RoundRect { bounds: rect, corners },
            ),
            final(self).entries() == old(self).entries(),
            final(self).taken() == old(self).taken(),
            final(self).builder() == old(self).builder(),
    {
        self.instructions.push(GfxPathInstruction::RoundRect { bounds: rect, corners });
    }

    /// Adds a circle.
    pub fn circle(&mut self, center: Point, radius: i32)
        requires
            old(self).wf(),
        ensures
            final(self).wf(),
            final(self).shapes() == old(self).shapes().push(
                GfxPathInstruction::Circle { center, radius },
            ),
            final(self).entries() == old(self).entries(),
            final(self).taken() == old(self).taken(),
            final(self).builder() == old(self).builder(),
    {
        self.instructions.push(GfxPathInstruction::Circle { center, radius });
    }

    /// Adds a path: the rest of `path` is replayed into the builder, and the
    /// shape records which points and verbs of the builder are its own.
    pub fn path2d(&mut self, path: &mut PathEventsIter<'_>)
        requires
            old(self).wf(),
            old(path).wf(),
            !in_subpath(old(path).verbs().take(old(path).position())),
        ensures
            final(self).wf(),
            final(self).shapes() == old(self).shapes().push(
                GfxPathInstruction::Path {
                    points: Span {
                        start: old(self).builder().points().len() as usize,
                        end: final(self).builder().points().len() as usize,
                    },
                    verbs: Span {
                        start: old(self).builder().verbs().len() as usize,
                        end: final(self).builder().verbs().len() as usize,
                    },
                },
            ),
            final(self).entries() == old(self).entries(),
            final(self).taken() == old(self).taken(),
            final(self).builder().points() == old(self).builder().points() + old(path).points().skip(points_used(old(path).verbs().take(old(path).position())) as int),
            final(self).builder().verbs() == old(self).builder().verbs() + old(path).verbs().skip(
                old(path).position(),
            ),
    {
        let points_start = self.builder.point_count();
        let verbs_start = self.builder.get_verbs().len();
        self.builder.extend(path);
        let points_end = self.builder.point_count();
        let verbs_end = self.builder.get_verbs().len();
        self.instructions.push(
            GfxPathInstruction::Path {
                points: Span { start: points_start, end: points_end },
                verbs: Span { start: verbs_start, end: verbs_end },
            },
        );
    }

    /// Makes an entry of the shapes that were added since the last entry,
    /// and returns it; with no such shape, the last entry is returned again,
    /// if there is one.
    pub fn push(&mut self) -> (entry: Option<GfxPathEntry>)
        requires
            old(self).wf(),
        ensures
            final(self).wf(),
            final(self).shapes() == old(self).shapes(),
            final(self).builder() == old(self).builder(),
            final(self).taken() == old(self).shapes().len(),
            old(self).taken() < old(self).shapes().len() ==> {
                &&& entry == Some(
                    GfxPathEntry {
                        start: old(self).taken() as usize,
                        end: old(self).shapes().len() as usize,
                    },
                )
                &&& final(self).entries() == old(self).entries().push(entry->0)
            },
            old(self).taken() == old(self).shapes().len() ==> {
                &&& final(self).entries() == old(self).entries()
                &&& entry == if old(self).entries().len() > 0 {
                    Some(old(self).entries().last())
                } else {
                    None
                }
            },
            entry matches Some(e) ==> e.start < e.end <= final(self).shapes().len(),
    {
        let start = self.instruction_start;
        let end = self.instructions.len();
        if start == end {
            let n = self.paths.len();
            if n == 0 {
                return None;
            }
            return Some(self.paths[n - 1]);
        }
        let p = GfxPathEntry { start, end };
        self.instruction_start = end;
        self.paths.push(p);
        Some(p)
    }
}

/// What an instruction does with its shapes.
#[derive(Debug, Clone, Copy, PartialEq, Eq, Structural)]
pub enum GraphicsInstructionKind {
    Fill { fill_style: FillStyle, path: GfxPathEntry },
    Stroke { stroke_style: StrokeStyle, path: GfxPathEntry },
}

impl GraphicsInstructionKind {
    /// The shapes that the instruction draws.
    pub open spec fn entry(&self) -> GfxPathEntry {
        match *self {
            GraphicsInstructionKind::Fill { fill_style, path } => path,
            GraphicsInstructionKind::Stroke { stroke_style, path } => path,
        }
    }

    /// The shapes that the instruction draws.
    pub fn path(&self) -> (entry: GfxPathEntry)
        ensures
            entry == self.entry(),
    {
        match self {
            GraphicsInstructionKind::Fill { fill_style: _, path } => *path,
            GraphicsInstructionKind::Stroke { stroke_style: _, path } => *path,
        }
    }
}

/// One fill or stroke, with the placement and the clip that were current
/// when it was made.
#[derive(Debug, Clone, Copy, PartialEq, Eq, Structural)]
pub struct GraphicsInstruction {
    pub kind: GraphicsInstructionKind,
    pub transform: Transform,
    pub clip_rect: Rect,
}

/// What `save` keeps and `restore` brings back.
#[derive(Debug, Clone, Copy, PartialEq, Eq, Structural)]
pub struct State {
    pub transform: Transform,
    pub clip_rect: Rect,
    pub line_width: u32,
    pub line_join: LineJoin,
    pub line_cap: LineCap,
}

impl State {
    /// The state of a new context: in place, unclipped, lines two pixels
    /// wide with miter joins and butt caps.
    pub open spec fn initial() -> State {
        State {
            transform: Transform::identity_map(),
            clip_rect: everything(),
            line_width: 2,
            line_join: LineJoin::Miter,
            line_cap: LineCap::Butt,
        }
    }
}

impl Default for State {
    fn default() -> (s: State)
        ensures
            s == State::initial(),
    {
        State {
            transform: Transform::identity(),
            clip_rect: clip_everything(),
            line_width: 2,
            line_join: LineJoin::Miter,
            line_cap: LineCap::Butt,
        }
    }
}

/// The name of a graphics context.
#[derive(Debug, Clone, Copy, PartialEq, Eq, Structural, Hash)]
pub struct GraphicsContextId(pub usize);

impl GraphicsContextId {
    /// The name with the number `id`.
    pub fn new(id: usize) -> (r: Self)
        ensures
            r == GraphicsContextId(id),
    {
        GraphicsContextId(id)
    }
}

/// Whether `b` draws the shapes of `a`, in the same place and under the
/// same clip.
pub open spec fn same_geometry(a: GraphicsInstruction, b: GraphicsInstruction) -> bool {
    b.kind.entry() == a.kind.entry() && b.transform == a.transform && b.clip_rect == a.clip_rect
}

/// Whether `a` is followed by `b` so that the two are drawn as one: they
/// draw the same geometry, one of them fills and the other strokes.
pub open spec fn pairs_with(a: GraphicsInstruction, b: GraphicsInstruction) -> bool {
    same_geometry(a, b) && (a.kind is Fill) != (b.kind is Fill)
}

/// The fill style of an instruction, if it fills.
pub open spec fn fill_of(a: GraphicsInstruction) -> Option<FillStyle> {
    match a.kind {
        GraphicsInstructionKind::Fill { fill_style, path } => Some(fill_style),
        _ => None,
    }
}

/// The stroke style of an instruction, if it strokes.
pub open spec fn stroke_of(a: GraphicsInstruction) -> Option<StrokeStyle> {
    match a.kind {
        GraphicsInstructionKind::Stroke { stroke_style, path } => Some(stroke_style),
        _ => None,
    }
}

/// Shapes that are drawn in one go: filled, stroked, or both.
#[derive(Debug, Clone, Copy, PartialEq, Eq, Structural)]
pub struct BatchedGraphicsInstruction {
    pub path: GfxPathEntry,
    pub transform: Transform,
    pub clip_rect: Rect,
    pub fill: Option<FillStyle>,
    pub stroke: Option<StrokeStyle>,
}

/// What is drawn in one go from position `at` of `instructions`.
pub open spec fn batched_at(instructions: Seq<GraphicsInstruction>, at: int) -> BatchedGraphicsInstruction {
    let a = instructions[at];
    if at + 1 < instructions.len() && pairs_with(a, instructions[at + 1]) {
        let b = instructions[at + 1];
        BatchedGraphicsInstruction {
            path: a.kind.entry(),
            transform: a.transform,
            clip_rect: a.clip_rect,
            fill: if a.kind is Fill {
                fill_of(a)
            } else {
                fill_of(b)
            },
            stroke: if a.kind is Fill {
                stroke_of(b)
            } else {
                stroke_of(a)
            },
        }
    } else {
        BatchedGraphicsInstruction {
            path: a.kind.entry(),
            transform: a.transform,
            clip_rect: a.clip_rect,
            fill: fill_of(a),
            stroke: stroke_of(a),
        }
    }
}

/// How many instructions are drawn in one go from position `at`.
pub open spec fn batched_len(instructions: Seq<GraphicsInstruction>, at: int) -> int {
    if at + 1 < instructions.len() && pairs_with(instructions[at], instructions[at + 1]) {
        2
    } else {
        1
    }
}

/// A recording surface: shapes and the fills and strokes made of them,
/// under a state that can be saved and restored.
pub struct GraphicsContext {
    id: GraphicsContextId,
    path: GraphicsPath,
    instructions: Vec<GraphicsInstruction>,
    dirty: bool,
    stack: Vec<State>,
    cur_state: State,
}

impl GraphicsContext {
    /// The name of the context.
    pub closed spec fn name(&self) -> GraphicsContextId {
        self.id
    }

    /// The shapes of the context.
    pub closed spec fn shapes(&self) -> GraphicsPath {
        self.path
    }

    /// The instructions made so far.
    pub closed spec fn instructions(&self) -> Seq<GraphicsInstruction> {
        self.instructions@
    }

    /// Whether anything changed since the context was last drawn.
    pub closed spec fn changed(&self) -> bool {
        self.dirty
    }

    /// The saved states, the oldest first.
    pub closed spec fn saved(&self) -> Seq<State> {
        self.stack@
    }

    /// The current state.
    pub closed spec fn state(&self) -> State {
        self.cur_state
    }

    /// Whether the context is in order: its shapes are, its clip has a size
    /// that is not negative, and every instruction draws shapes that exist.
    pub closed spec fn wf(&self) -> bool {
        &&& self.path.wf()
        &&& self.cur_state.clip_rect.width >= 0
        &&& self.cur_state.clip_rect.height >= 0
        &&& forall|k: int|
            0 <= k < self.stack@.len() ==> (#[trigger] self.stack@[k]).clip_rect.width >= 0
                && self.stack@[k].clip_rect.height >= 0
    }

    /// The shapes of a context in order are in order.
    pub proof fn lemma_wf(&self)
        requires
            self.wf(),
        ensures
            self.shapes().wf(),
    {
    }

    /// A context without shapes, in the initial state.
    pub fn new(id: GraphicsContextId) -> (cx: Self)
        ensures
            cx.wf(),
            cx.name() == id,
            cx.instructions().len() == 0,
            cx.shapes().shapes().len() == 0,
            cx.shapes().entries().len() == 0,
            cx.saved().len() == 0,
            cx.state() == State::initial(),
            !cx.changed(),
    {
        GraphicsContext {
            id,
            dirty: false,
            stack: Vec::new(),
            cur_state: State::default(),
            path: GraphicsPath::new(),
            instructions: Vec::new(),
        }
    }

    /// The name of the context.
    pub fn id(&self) -> (id: GraphicsContextId)
        ensures
            id == self.name(),
    {
        self.id
    }

    /// Whether anything changed since the context was last drawn.
    pub fn is_dirty(&self) -> (dirty: bool)
        ensures
            dirty == self.changed(),
    {
        self.dirty
    }

    /// Notes that the context was drawn.
    pub fn mark_clean(&mut self)
        ensures
            !final(self).changed(),
            final(self).wf() == old(self).wf(),
            final(self).instructions() == old(self).instructions(),
            final(self).shapes() == old(self).shapes(),
            final(self).state() == old(self).state(),
            final(self).saved() == old(self).saved(),
    {
        self.dirty = false;
    }

    /// The instructions made so far.
    pub fn get_instructions(&self) -> (instructions: &Vec<GraphicsInstruction>)
        ensures
            instructions@ == self.instructions(),
    {
        &self.instructions
    }

    /// The shapes of the context.
    pub fn get_path(&self) -> (path: &GraphicsPath)
        ensures
            *path == self.shapes(),
    {
        &self.path
    }

    /// Forgets shapes and instructions. The state stays.
    pub fn clear(&mut self)
        requires
            old(self).wf(),
        ensures
            final(self).wf(),
            final(self).changed(),
            final(self).instructions().len() == 0,
            final(self).shapes().shapes().len() == 0,
            final(self).state() == old(self).state(),
            final(self).saved() == old(self).saved(),
    {
        self.dirty = true;
        self.path.clear();
        self.instructions.clear();
    }

    /// Saves the current state.
    pub fn save(&mut self)
        requires
            old(self).wf(),
        ensures
            final(self).wf(),
            final(self).saved() == old(self).saved().push(old(self).state()),
            final(self).state() == old(self).state(),
            final(self).instructions() == old(self).instructions(),
            final(self).shapes() == old(self).shapes(),
    {
        self.stack.push(self.cur_state);
    }

    /// Brings back the state that was saved last, if there is one.
    pub fn restore(&mut self)
        requires
            old(self).wf(),
        ensures
            final(self).wf(),
            old(self).saved().len() > 0 ==> final(self).state() == old(self).saved().last()
                && final(self).saved() == old(self).saved().drop_last(),
            old(self).saved().len() == 0 ==> final(self).state() == old(self).state() && final(self).saved() == old(self).saved(),
            final(self).instructions() == old(self).instructions(),
            final(self).shapes() == old(self).shapes(),
    {
        match self.stack.pop() {
            Some(state) => {
                self.cur_state = state;
            },
            None => {},
        }
    }

    /// Narrows the clip to its part inside `rect`.
    pub fn set_clip(&mut self, rect: Rect)
        requires
            old(self).wf(),
            rect.width >= 0,
            rect.height >= 0,
        ensures
            final(self).wf(),
            final(self).state() == (State {
                clip_rect: old(self).state().clip_rect.meet(rect),
                ..old(self).state()
            }),
            final(self).saved() == old(self).saved(),
            final(self).instructions() == old(self).instructions(),
            final(self).shapes() == old(self).shapes(),
    {
        self.cur_state.clip_rect = self.cur_state.clip_rect.intersect(&rect);
    }

    /// The current clip.
    pub fn get_clip(&self) -> (rect: Rect)
        ensures
            rect == self.state().clip_rect,
    {
        self.cur_state.clip_rect
    }

    /// Widens the clip to everything.
    pub fn reset_clip(&mut self)
        requires
            old(self).wf(),
        ensures
            final(self).wf(),
            final(self).state() == (State { clip_rect: everything(), ..old(self).state() }),
            final(self).saved() == old(self).saved(),
            final(self).instructions() == old(self).instructions(),
            final(self).shapes() == old(self).shapes(),
    {
        self.cur_state.clip_rect = clip_everything();
    }

    /// Brings back the initial state. The saved states stay.
    pub fn reset(&mut self)
        requires
            old(self).wf(),
        ensures
            final(self).wf(),
            final(self).state() == State::initial(),
            final(self).saved() == old(self).saved(),
            final(self).instructions() == old(self).instructions(),
            final(self).shapes() == old(self).shapes(),
    {
        self.cur_state = State::default();
    }

    /// Puts shapes back in place.
    pub fn reset_transform(&mut self)
        requires
            old(self).wf(),
        ensures
            final(self).wf(),
            final(self).state() == (State {
                transform: Transform::identity_map(),
                ..old(self).state()
            }),
            final(self).saved() == old(self).saved(),
            final(self).instructions() == old(self).instructions(),
            final(self).shapes() == old(self).shapes(),
    {
        self.cur_state.transform = Transform::identity();
    }

    /// Sets the width of lines, in pixels.
    pub fn set_line_width(&mut self, line_width: u32)
        requires
            old(self).wf(),
        ensures
            final(self).wf(),
            final(self).state() == (State { line_width, ..old(self).state() }),
            final(self).saved() == old(self).saved(),
            final(self).instructions() == old(self).instructions(),
            final(self).shapes() == old(self).shapes(),
    {
        self.cur_state.line_width = line_width;
    }

    /// The width of lines, in pixels.
    pub fn get_line_width(&self) -> (w: u32)
        ensures
            w == self.state().line_width,
    {
        self.cur_state.line_width
    }

    /// Sets the join of lines.
    pub fn set_line_join(&mut self, line_join: LineJoin)
        requires
            old(self).wf(),
        ensures
            final(self).wf(),
            final(self).state() == (State { line_join, ..old(self).state() }),
            final(self).saved() == old(self).saved(),
            final(self).instructions() == old(self).instructions(),
            final(self).shapes() == old(self).shapes(),
    {
        self.cur_state.line_join = line_join;
    }

    /// The join of lines.
    pub fn get_line_join(&self) -> (j: LineJoin)
        ensures
            j == self.state().line_join,
    {
        self.cur_state.line_join
    }

    /// Sets the cap of lines.
    pub fn set_line_cap(&mut self, line_cap: LineCap)
        requires
            old(self).wf(),
        ensures
            final(self).wf(),
            final(self).state() == (State { line_cap, ..old(self).state() }),
            final(self).saved() == old(self).saved(),
            final(self).instructions() == old(self).instructions(),
            final(self).shapes() == old(self).shapes(),
    {
        self.cur_state.line_cap = line_cap;
    }

    /// The cap of lines.
    pub fn get_line_cap(&self) -> (c: LineCap)
        ensures
            c == self.state().line_cap,
    {
        self.cur_state.line_cap
    }

    /// Moves what is drawn from now on by `(dx, dy)`.
    pub fn translate(&mut self, dx: i32, dy: i32)
        requires
            old(self).wf(),
        ensures
            final(self).wf(),
            final(self).state() == (State {
                transform: old(self).state().transform.after(
                    Transform { dx, dy, ..Transform::identity_map() },
                ),
                ..old(self).state()
            }),
            final(self).saved() == old(self).saved(),
            final(self).instructions() == old(self).instructions(),
            final(self).shapes() == old(self).shapes(),
    {
        self.cur_state.transform = self.cur_state.transform.translate(dx, dy);
    }

    /// Scales what is drawn from now on by `sx` and `sy`, given in sixteen
    /// fractional bits.
    pub fn scale(&mut self, sx: i32, sy: i32)
        requires
            old(self).wf(),
        ensures
            final(self).wf(),
            final(self).state() == (State {
                transform: old(self).state().transform.after(
                    Transform { xx: sx, yy: sy, ..Transform::identity_map() },
                ),
                ..old(self).state()
            }),
            final(self).saved() == old(self).saved(),
            final(self).instructions() == old(self).instructions(),
            final(self).shapes() == old(self).shapes(),
    {
        self.cur_state.transform = self.cur_state.transform.scale(sx, sy);
    }

    /// Adds a rectangle to the shapes.
    pub fn rect(&mut self, rect: Rect)
        requires
            old(self).wf(),
        ensures
            final(self).wf(),
            final(self).shapes().shapes() == old(self).shapes().shapes().push(
                GfxPathInstruction::Rect { bounds: rect },
            ),
            final(self).shapes().entries() == old(self).shapes().entries(),
            final(self).shapes().taken() == old(self).shapes().taken(),
            final(self).instructions() == old(self).instructions(),
            final(self).state() == old(self).state(),
            final(self).saved() == old(self).saved(),
    {
        self.path.rect(rect);
    }

    /// Adds a rounded rectangle to the shapes.
    pub fn round_rect(&mut self, rect: Rect, radii: Corners)
        requires
            old(self).wf(),
        ensures
            final(self).wf(),
            final(self).shapes().shapes() == old(self).shapes().shapes().push(
                GfxPathInstruction::RoundRect { bounds: rect, corners: radii },
            ),
            final(self).shapes().entries() == old(self).shapes().entries(),
            final(self).shapes().taken() == old(self).shapes().taken(),
            final(self).instructions() == old(self).instructions(),
            final(self).state() == old(self).state(),
            final(self).saved() == old(self).saved(),
    {
        self.path.round_rect(rect, radii);
    }

    /// Adds a circle to the shapes.
    pub fn circle(&mut self, center: Point, radius: i32)
        requires
            old(self).wf(),
        ensures
            final(self).wf(),
            final(self).shapes().shapes() == old(self).shapes().shapes().push(
                GfxPathInstruction::Circle { center, radius },
            ),
            final(self).shapes().entries() == old(self).shapes().entries(),
            final(self).shapes().taken() == old(self).shapes().taken(),
            final(self).instructions() == old(self).instructions(),
            final(self).state() == old(self).state(),
            final(self).saved() == old(self).saved(),
    {
        self.path.circle(center, radius);
    }

    /// Adds a path to the shapes.
    pub fn path(&mut self, path: &mut PathEventsIter<'_>)
        requires
            old(self).wf(),
            old(path).wf(),
            !in_subpath(old(path).verbs().take(old(path).position())),
        ensures
            final(self).wf(),
            final(self).shapes().shapes().len() == old(self).shapes().shapes().len() + 1,
            final(self).shapes().entries() == old(self).shapes().entries(),
            final(self).shapes().taken() == old(self).shapes().taken(),
            final(self).instructions() == old(self).instructions(),
            final(self).state() == old(self).state(),
            final(self).saved() == old(self).saved(),
    {
        self.path.path2d(path);
    }

    /// Appends `ins` unless it repeats the last instruction.
    fn push_instruction(&mut self, ins: GraphicsInstruction)
        ensures
            final(self).path == old(self).path,
            final(self).cur_state == old(self).cur_state,
            final(self).stack == old(self).stack,
            final(self).dirty == old(self).dirty,
            final(self).instructions@ == appended(old(self).instructions@, ins),
    {
        let n = self.instructions.len();
        if n == 0 || self.instructions[n - 1] != ins {
            self.instructions.push(ins);
        }
    }

    /// Fills, in `color`, the shapes that were added since the last fill
    /// or stroke; or the shapes of the last fill or stroke, where none was
    /// added. Without any shape nothing happens. A fill that repeats the
    /// last instruction is not recorded twice.
    pub fn fill(&mut self, color: Color)
        requires
            old(self).wf(),
        ensures
            final(self).wf(),
            final(self).state() == old(self).state(),
            final(self).saved() == old(self).saved(),
            final(self).shapes().shapes() == old(self).shapes().shapes(),
            final(self).shapes().taken() == old(self).shapes().shapes().len(),
            final(self).shapes().entries() == entries_after(old(self).shapes()),
            final(self).shapes().entries().len() == 0 ==> final(self).instructions() == old(self).instructions(),
            final(self).shapes().entries().len() > 0 ==> final(self).changed() && final(self).instructions() == appended(
                old(self).instructions(),
                GraphicsInstruction {
                    kind: GraphicsInstructionKind::Fill {
                        fill_style: FillStyle { color },
                        path: final(self).shapes().entries().last(),
                    },
                    transform: old(self).state().transform,
                    clip_rect: old(self).state().clip_rect,
                },
            ),
    {
        match self.path.push() {
            Some(path) => {
                self.dirty = true;
                let ins = GraphicsInstruction {
                    kind: GraphicsInstructionKind::Fill {
                        fill_style: FillStyle::default().color(color),
                        path,
                    },
                    transform: self.cur_state.transform,
                    clip_rect: self.cur_state.clip_rect,
                };
                self.push_instruction(ins);
            },
            None => {},
        }
    }

    /// Strokes, in `color` and with the current line settings, the shapes
    /// that were added since the last fill or stroke; or the shapes of the
    /// last fill or stroke, where none was added.
    pub fn stroke(&mut self, color: Color)
        requires
            old(self).wf(),
        ensures
            final(self).wf(),
            final(self).state() == old(self).state(),
            final(self).saved() == old(self).saved(),
            final(self).shapes().shapes() == old(self).shapes().shapes(),
            final(self).shapes().taken() == old(self).shapes().shapes().len(),
            final(self).shapes().entries() == entries_after(old(self).shapes()),
            final(self).shapes().entries().len() == 0 ==> final(self).instructions() == old(self).instructions(),
            final(self).shapes().entries().len() > 0 ==> final(self).changed() && final(self).instructions() == appended(
                old(self).instructions(),
                GraphicsInstruction {
                    kind: GraphicsInstructionKind::Stroke {
                        stroke_style: StrokeStyle {
                            color,
                            line_width: old(self).state().line_width,
                            line_join: old(self).state().line_join,
                            line_cap: old(self).state().line_cap,
                            allow_overlap: false,
                        },
                        path: final(self).shapes().entries().last(),
                    },
                    transform: old(self).state().transform,
                    clip_rect: old(self).state().clip_rect,
                },
            ),
    {
        match self.path.push() {
            Some(path) => {
                self.dirty = true;
                let ins = GraphicsInstruction {
                    kind: GraphicsInstructionKind::Stroke {
                        stroke_style: StrokeStyle {
                            color,
                            line_width: self.cur_state.line_width,
                            line_join: self.cur_state.line_join,
                            line_cap: self.cur_state.line_cap,
                            allow_overlap: false,
                        },
                        path,
                    },
                    transform: self.cur_state.transform,
                    clip_rect: self.cur_state.clip_rect,
                };
                self.push_instruction(ins);
            },
            None => {},
        }
    }

    /// A pass over the instructions that draws a fill and a stroke of the
    /// same geometry in one go.
    pub fn batched(&self) -> (iter: BatchedGraphicsContextIter<'_>)
        ensures
            iter.instructions() == self.instructions(),
            iter.position() == 0,
    {
        BatchedGraphicsContextIter { instructions: &self.instructions, cursor: 0 }
    }
}

/// `instructions` with `ins` appended, unless `ins` repeats the last of
/// them.
pub open spec fn appended(instructions: Seq<GraphicsInstruction>, ins: GraphicsInstruction) -> Seq<
    GraphicsInstruction,
> {
    if instructions.len() > 0 && instructions.last() == ins {
        instructions
    } else {
        instructions.push(ins)
    }
}

/// The entries of `path` after a fill or stroke: one more, of the shapes
/// that were not taken yet, where there are such shapes.
pub open spec fn entries_after(path: GraphicsPath) -> Seq<GfxPathEntry> {
    if path.taken() < path.shapes().len() {
        path.entries().push(
            GfxPathEntry { start: path.taken() as usize, end: path.shapes().len() as usize },
        )
    } else {
        path.entries()
    }
}

/// A pass over the instructions of a graphics context.
pub struct BatchedGraphicsContextIter<'a> {
    instructions: &'a Vec<GraphicsInstruction>,
    cursor: usize,
}

impl<'a> BatchedGraphicsContextIter<'a> {
    /// The instructions that are passed over.
    pub closed spec fn instructions(&self) -> Seq<GraphicsInstruction> {
        self.instructions@
    }

    /// Number of instructions already passed.
    pub closed spec fn position(&self) -> int {
        self.cursor as int
    }

    /// What is drawn next: one instruction, or two that fill and stroke the
    /// same geometry; `None` after the last instruction.
    pub fn next(&mut self) -> (item: Option<BatchedGraphicsInstruction>)
        ensures
            final(self).instructions() == old(self).instructions(),
            old(self).position() >= old(self).instructions().len() ==> item is None && final(self).position() == old(self).position(),
            0 <= old(self).position() < old(self).instructions().len() ==> {
                &&& item == Some(batched_at(old(self).instructions(), old(self).position()))
                &&& final(self).position() == old(self).position() + batched_len(
                    old(self).instructions(),
                    old(self).position(),
                )
            },
    {
        let n = self.instructions.len();
        if self.cursor >= n {
            return None;
        }
        let current = self.instructions[self.cursor];
        let path = current.kind.path();
        let mut fill: Option<FillStyle> = None;
        let mut stroke: Option<StrokeStyle> = None;
        match current.kind {
            GraphicsInstructionKind::Fill { fill_style, path: _ } => {
                fill = Some(fill_style);
            },
            GraphicsInstructionKind::Stroke { stroke_style, path: _ } => {
                stroke = Some(stroke_style);
            },
        }
        let mut taken: usize = 1;
        // If the next instruction uses the same path, transform and clip,
        // and does the other thing with them, it is drawn along.
        if self.cursor + 1 < n {
            let next = self.instructions[self.cursor + 1];
            let same = next.kind.path() == path && next.transform == current.transform
                && next.clip_rect == current.clip_rect;
            if same {
                match next.kind {
                    GraphicsInstructionKind::Fill { fill_style, path: _ } => {
                        if fill.is_none() {
                            fill = Some(fill_style);
                            taken = 2;
                        }
                    },
                    GraphicsInstructionKind::Stroke { stroke_style, path: _ } => {
                        if stroke.is_none() {
                            stroke = Some(stroke_style);
                            taken = 2;
                        }
                    },
                }
            }
        }
        self.cursor = self.cursor + taken;
        Some(
            BatchedGraphicsInstruction {
                path,
                transform: current.transform,
                clip_rect: current.clip_rect,
                fill,
                stroke,
            },
        )
    }
}

} // verus!
