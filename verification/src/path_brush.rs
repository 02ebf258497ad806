//! Brushes for paths: one default brush, and overrides for single
//! subpaths, keyed by the handle of the subpath.

use crate::brush::Brush;
use crate::canvas::placed;
use crate::canvas::queued;
use crate::canvas::white_fill;
use crate::canvas::Canvas;
use crate::color::Color;
use crate::math::abs;
use crate::math::Corners;
use crate::math::Rect;
use crate::mesh::TextureId;
use crate::path::builder::PathBuilder;
use crate::path::shapes::circle_points;
use crate::path::shapes::circle_verbs;
use crate::path::shapes::polygon_points;
use crate::path::shapes::polygon_verbs;
use crate::path::shapes::rect_points;
use crate::path::shapes::round_rect_points;
use crate::path::shapes::round_rect_verbs;
use crate::path::Contour;
use crate::path::PathVerb;
use crate::path::Point;
use crate::path::Polygon;
use crate::path::COORD_MAX;
use crate::primitives::Primitive;
use std::collections::HashMap;
use vstd::prelude::*;

verus! {

/// `ahash::RandomState`, the hasher factory of the override table. It is
/// carried as an opaque value.
#[verifier::external_type_specification]
#[verifier::external_body]
pub struct ExRandomState(ahash::RandomState);

/// `HashMap::insert` on a table hashed by `ahash::RandomState`. The hashers
/// that one `RandomState` builds give equal hashes for equal keys, so the
/// table behaves as a map: after the call it holds `brush` under `key` and is
/// otherwise unchanged.
#[verifier::external_body]
fn table_insert(table: &mut HashMap<usize, Brush, ahash::RandomState>, key: usize, brush: Brush)
    ensures
        final(table)@ == old(table)@.insert(key, brush),
{
    table.insert(key, brush);
}

/// `HashMap::get` on a table hashed by `ahash::RandomState`: the brush held
/// under `key`, if there is one.
#[verifier::external_body]
fn table_get(table: &HashMap<usize, Brush, ahash::RandomState>, key: usize) -> (found: Option<
    Brush,
>)
    ensures
        found == if table@.contains_key(key) {
            Some(table@[key])
        } else {
            None::<Brush>
        },
{
    table.get(&key).copied()
}

/// A default brush and the brushes that single subpaths get in its place.
pub struct PathBrush {
    default: Brush,
    overrides: HashMap<usize, Brush, ahash::RandomState>,
}

impl PathBrush {
    /// The brush of the subpaths that have none of their own.
    pub closed spec fn default_brush(&self) -> Brush {
        self.default
    }

    /// The overrides: brushes by the handle of their subpath.
    pub closed spec fn overrides(&self) -> Map<usize, Brush> {
        self.overrides@
    }

    /// The brush that the subpath `contour` is drawn with.
    pub open spec fn brush_of(&self, contour: Contour) -> Brush {
        if self.overrides().contains_key(contour.0) {
            self.overrides()[contour.0]
        } else {
            self.default_brush()
        }
    }

    /// The brush of the subpaths that have none of their own.
    pub fn get_default(&self) -> (brush: Brush)
        ensures
            brush == self.default_brush(),
    {
        self.default
    }

    /// The brush `default` for every subpath.
    pub fn new(default: Brush) -> (b: Self)
        ensures
            b.default_brush() == default,
            b.overrides() == Map::<usize, Brush>::empty(),
    {
        PathBrush { default, overrides: HashMap::default() }
    }

    /// Gives the subpath `contour` the brush `brush`.
    pub fn set(&mut self, contour: Contour, brush: Brush)
        ensures
            final(self).default_brush() == old(self).default_brush(),
            final(self).overrides() == old(self).overrides().insert(contour.0, brush),
    {
        table_insert(&mut self.overrides, contour.0, brush);
    }

    /// Gives every subpath without a brush of its own the brush `default`.
    pub fn set_default(&mut self, default: Brush)
        ensures
            final(self).default_brush() == default,
            final(self).overrides() == old(self).overrides(),
    {
        self.default = default;
    }

    /// The brush that the subpath `contour` is drawn with: its own, or the
    /// default.
    pub fn get_or_default(&self, contour: &Contour) -> (brush: Brush)
        ensures
            brush == self.brush_of(*contour),
    {
        match table_get(&self.overrides, contour.0) {
            Some(brush) => brush,
            None => self.default,
        }
    }

    /// The brush `brush` for every subpath.
    pub fn from_brush(brush: Brush) -> (b: Self)
        ensures
            b.default_brush() == brush,
            b.overrides() == Map::<usize, Brush>::empty(),
    {
        PathBrush::new(brush)
    }
}

impl Default for PathBrush {
    /// An opaque white fill for every subpath.
    fn default() -> (b: Self)
        ensures
            b.default_brush() == (Brush {
                fill_style: crate::brush::FillStyle { color: Color { r: 255, g: 255, b: 255, a: 255 } },
                ..Brush::blank()
            }),
            b.overrides() == Map::<usize, Brush>::empty(),
    {
        PathBrush::new(Brush::filled(Color::white()))
    }
}

/// A brush set and read back is the brush set; other subpaths keep theirs.
pub proof fn lemma_set_then_get(before: PathBrush, after: PathBrush, contour: Contour, brush: Brush)
    requires
        after.default_brush() == before.default_brush(),
        after.overrides() == before.overrides().insert(contour.0, brush),
    ensures
        after.brush_of(contour) == brush,
        forall|other: Contour| other.0 != contour.0 ==> after.brush_of(other) == before.brush_of(other),
{
}

/// A path under construction whose subpaths get their brushes as they are
/// ended.
pub struct PathBuilderWithBrush {
    pub path: PathBuilder,
    pub brush: PathBrush,
}

impl PathBuilder {
    /// The builder, with brushes for its subpaths: so far the default
    /// brush for each.
    pub fn with_brush(self) -> (both: PathBuilderWithBrush)
        ensures
            both.path == self,
            both.brush.default_brush() == white_fill(),
            both.brush.overrides() == Map::<usize, Brush>::empty(),
    {
        PathBuilderWithBrush { path: self, brush: PathBrush::default() }
    }
}

impl PathBuilderWithBrush {
    /// Whether `now` holds the brushes of `before`, and `brush` for the
    /// subpath `contour`.
    pub open spec fn painted(before: PathBrush, now: PathBrush, contour: Contour, brush: Brush) -> bool {
        &&& now.default_brush() == before.default_brush()
        &&& now.overrides() == before.overrides().insert(contour.0, brush)
    }

    /// Gives every subpath without a brush of its own the brush `brush`.
    pub fn with_default_brush(&mut self, brush: Brush)
        ensures
            final(self).path == old(self).path,
            final(self).brush.default_brush() == brush,
            final(self).brush.overrides() == old(self).brush.overrides(),
    {
        self.brush.set_default(brush);
    }

    /// Ends the open subpath as a closed ring and gives it `brush`.
    pub fn close(&mut self, brush: Brush)
        requires
            old(self).path.wf(),
            old(self).path.subpath_open(),
        ensures
            final(self).path.wf(),
            !final(self).path.subpath_open(),
            final(self).path.points() == old(self).path.points().push(
                old(self).path.first_point(),
            ),
            final(self).path.verbs() == old(self).path.verbs().push(PathVerb::Close),
            Self::painted(
                old(self).brush,
                final(self).brush,
                Contour(final(self).path.points().len() as usize),
                brush,
            ),
    {
        let contour = self.path.end(true);
        self.brush.set(contour, brush);
    }

    /// Ends the open subpath, closed where `close` is set, and gives it
    /// `brush`.
    pub fn end(&mut self, close: bool, brush: Brush)
        requires
            old(self).path.wf(),
            old(self).path.subpath_open(),
        ensures
            final(self).path.wf(),
            !final(self).path.subpath_open(),
            close ==> final(self).path.points() == old(self).path.points().push(
                old(self).path.first_point(),
            ),
            close ==> final(self).path.verbs() == old(self).path.verbs().push(PathVerb::Close),
            !close ==> final(self).path.points() == old(self).path.points(),
            !close ==> final(self).path.verbs() == old(self).path.verbs().push(PathVerb::End),
            Self::painted(
                old(self).brush,
                final(self).brush,
                Contour(final(self).path.points().len() as usize),
                brush,
            ),
    {
        let contour = self.path.end(close);
        self.brush.set(contour, brush);
    }

    /// Adds `polygon` as one subpath and gives it `brush`. A polygon
    /// without points adds nothing, and the brush goes to the invalid handle.
    pub fn polygon(&mut self, polygon: Polygon<'_>, brush: Brush)
        requires
            old(self).path.wf(),
            !old(self).path.subpath_open(),
            forall|i: int| 0 <= i < polygon.points@.len() ==> (#[trigger] polygon.points@[i]).finite(),
        ensures
            final(self).path.wf(),
            !final(self).path.subpath_open(),
            final(self).path.points() == old(self).path.points() + polygon_points(
                polygon.points@,
                polygon.closed,
            ),
            final(self).path.verbs() == old(self).path.verbs() + polygon_verbs(
                polygon.points@.len(),
                polygon.closed,
            ),
            Self::painted(
                old(self).brush,
                final(self).brush,
                if polygon.points@.len() == 0 {
                    Contour(0)
                } else {
                    Contour(final(self).path.points().len() as usize)
                },
                brush,
            ),
    {
        let contour = self.path.polygon(polygon);
        self.brush.set(contour, brush);
    }

    /// Adds a circle about `center` and gives it `brush`.
    pub fn circle(&mut self, center: Point, radius: i32, brush: Brush)
        requires
            old(self).path.wf(),
            !old(self).path.subpath_open(),
            -COORD_MAX <= radius <= COORD_MAX,
            -COORD_MAX <= center.x - abs(radius as int),
            center.x + abs(radius as int) <= COORD_MAX,
            -COORD_MAX <= center.y - abs(radius as int),
            center.y + abs(radius as int) <= COORD_MAX,
        ensures
            final(self).path.wf(),
            !final(self).path.subpath_open(),
            final(self).path.points() == old(self).path.points() + circle_points(
                center,
                abs(radius as int),
            ),
            final(self).path.verbs() == old(self).path.verbs() + circle_verbs(),
            Self::painted(
                old(self).brush,
                final(self).brush,
                Contour(final(self).path.points().len() as usize),
                brush,
            ),
    {
        let contour = self.path.circle(center, radius);
        self.brush.set(contour, brush);
    }

    /// Adds the rectangle `rect` and gives it `brush`.
    pub fn rect(&mut self, rect: &Rect, brush: Brush)
        requires
            old(self).path.wf(),
            !old(self).path.subpath_open(),
            rect.wf(),
        ensures
            final(self).path.wf(),
            !final(self).path.subpath_open(),
            final(self).path.points() == old(self).path.points() + rect_points(*rect),
            final(self).path.verbs() == old(self).path.verbs() + polygon_verbs(4, true),
            Self::painted(
                old(self).brush,
                final(self).brush,
                Contour(final(self).path.points().len() as usize),
                brush,
            ),
    {
        let contour = self.path.rect(rect);
        self.brush.set(contour, brush);
    }

    /// Adds the rectangle `rect` with rounded corners and gives it `brush`.
    pub fn round_rect(&mut self, rect: &Rect, corners: &Corners, brush: Brush)
        requires
            old(self).path.wf(),
            !old(self).path.subpath_open(),
            rect.wf(),
            corners.top_left > i32::MIN,
            corners.top_right > i32::MIN,
            corners.bottom_right > i32::MIN,
            corners.bottom_left > i32::MIN,
        ensures
            final(self).path.wf(),
            !final(self).path.subpath_open(),
            final(self).path.points() == old(self).path.points() + round_rect_points(
                *rect,
                *corners,
            ),
            final(self).path.verbs() == old(self).path.verbs() + round_rect_verbs(*rect, *corners),
            Self::painted(
                old(self).brush,
                final(self).brush,
                Contour(final(self).path.points().len() as usize),
                brush,
            ),
    {
        let contour = self.path.round_rect(rect, corners);
        self.brush.set(contour, brush);
    }

    /// Draws the path on `canvas`, each subpath with its brush.
    pub fn draw(self, canvas: &mut Canvas)
        requires
            self.path.wf(),
            !self.path.subpath_open(),
            old(canvas).wf(),
        ensures
            final(canvas).wf(),
            exists|path: crate::path::Path|
                {
                    &&& path.points() == self.path.points()
                    &&& path.verbs() == self.path.verbs()
                    &&& #[trigger] queued(
                        old(canvas)@,
                        placed(
                            Primitive::Path { path, brush: self.brush },
                            white_fill(),
                            TextureId::white(),
                            old(canvas)@.state,
                        ),
                    ) == final(canvas)@
                },
    {
        let path = self.path.build();
        canvas.draw_path(path, self.brush);
    }

    /// The builder and the brushes.
    pub fn split(self) -> (parts: (PathBuilder, PathBrush))
        ensures
            parts.0 == self.path,
            parts.1 == self.brush,
    {
        (self.path, self.brush)
    }
}

} // verus!
