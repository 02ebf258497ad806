//! Brushes: how a shape is filled and stroked.

use crate::color::Color;
use vstd::prelude::*;

verus! {

/// How the corner between two stroked edges is drawn.
#[derive(Debug, Clone, Copy, PartialEq, Eq, Structural, Hash)]
pub enum LineJoin {
    Miter,
    Bevel,
    Round,
}

/// How the ends of an open stroke are drawn.
#[derive(Debug, Clone, Copy, PartialEq, Eq, Structural, Hash)]
pub enum LineCap {
    Round,
    Square,
    Butt,
}

/// How the inside of a shape is painted.
#[derive(Debug, Clone, Copy, PartialEq, Eq, Structural, Hash)]
pub struct FillStyle {
    pub color: Color,
}

impl FillStyle {
    /// The same style with the given colour.
    pub fn color(self, color: Color) -> (style: Self)
        ensures
            style == (FillStyle { color }),
    {
        FillStyle { color }
    }

    /// The style that fills with `color`.
    pub fn from_color(color: Color) -> (style: Self)
        ensures
            style == (FillStyle { color }),
    {
        FillStyle { color }
    }
}

impl Default for FillStyle {
    /// A transparent fill.
    fn default() -> (style: Self)
        ensures
            style.color == (Color { r: 0, g: 0, b: 0, a: 0 }),
    {
        FillStyle { color: Color::transparent() }
    }
}

/// How the outline of a shape is painted. `line_width` is in whole pixels.
#[derive(Debug, Clone, Copy, PartialEq, Eq, Structural, Hash)]
pub struct StrokeStyle {
    pub color: Color,
    pub line_width: u32,
    pub line_join: LineJoin,
    pub line_cap: LineCap,
    pub allow_overlap: bool,
}

impl Default for StrokeStyle {
    /// An opaque white stroke, two pixels wide, with miter joins and butt caps.
    fn default() -> (style: Self)
        ensures
            style == (StrokeStyle {
                color: Color { r: 255, g: 255, b: 255, a: 255 },
                line_width: 2,
                line_join: LineJoin::Miter,
                line_cap: LineCap::Butt,
                allow_overlap: false,
            }),
    {
        StrokeStyle {
            color: Color::white(),
            line_width: 2,
            line_join: LineJoin::Miter,
            line_cap: LineCap::Butt,
            allow_overlap: false,
        }
    }
}

impl StrokeStyle {
    pub fn allow_overlap(self, allow: bool) -> (style: Self)
        ensures
            style == (StrokeStyle { allow_overlap: allow, ..self }),
    {
        StrokeStyle { allow_overlap: allow, ..self }
    }

    pub fn color(self, color: Color) -> (style: Self)
        ensures
            style == (StrokeStyle { color, ..self }),
    {
        StrokeStyle { color, ..self }
    }

    pub fn line_width(self, line_width: u32) -> (style: Self)
        ensures
            style == (StrokeStyle { line_width, ..self }),
    {
        StrokeStyle { line_width, ..self }
    }

    pub fn line_join(self, line_join: LineJoin) -> (style: Self)
        ensures
            style == (StrokeStyle { line_join, ..self }),
    {
        StrokeStyle { line_join, ..self }
    }

    pub fn line_cap(self, line_cap: LineCap) -> (style: Self)
        ensures
            style == (StrokeStyle { line_cap, ..self }),
    {
        StrokeStyle { line_cap, ..self }
    }

    /// The same style with the default join, the miter.
    pub fn default_join(self) -> (style: Self)
        ensures
            style == (StrokeStyle { line_join: LineJoin::Miter, ..self }),
    {
        StrokeStyle { line_join: LineJoin::Miter, ..self }
    }

    pub fn miter_join(self) -> (style: Self)
        ensures
            style == (StrokeStyle { line_join: LineJoin::Miter, ..self }),
    {
        StrokeStyle { line_join: LineJoin::Miter, ..self }
    }

    pub fn bevel_join(self) -> (style: Self)
        ensures
            style == (StrokeStyle { line_join: LineJoin::Bevel, ..self }),
    {
        StrokeStyle { line_join: LineJoin::Bevel, ..self }
    }

    pub fn round_join(self) -> (style: Self)
        ensures
            style == (StrokeStyle { line_join: LineJoin::Round, ..self }),
    {
        StrokeStyle { line_join: LineJoin::Round, ..self }
    }

    pub fn round_cap(self) -> (style: Self)
        ensures
            style == (StrokeStyle { line_cap: LineCap::Round, ..self }),
    {
        StrokeStyle { line_cap: LineCap::Round, ..self }
    }

    /// The same style with the default cap, the butt.
    pub fn default_cap(self) -> (style: Self)
        ensures
            style == (StrokeStyle { line_cap: LineCap::Butt, ..self }),
    {
        StrokeStyle { line_cap: LineCap::Butt, ..self }
    }

    pub fn square_cap(self) -> (style: Self)
        ensures
            style == (StrokeStyle { line_cap: LineCap::Square, ..self }),
    {
        StrokeStyle { line_cap: LineCap::Square, ..self }
    }

    /// Whether a stroke in this style leaves no mark: it has no width or a
    /// colour that does not show.
    pub open spec fn draws_nothing(&self) -> bool {
        self.line_width == 0 || self.color.shows_nothing()
    }

    /// Whether a stroke in this style leaves no mark.
    pub fn is_noop(&self) -> (r: bool)
        ensures
            r == self.draws_nothing(),
    {
        self.line_width == 0 || self.color.is_transparent()
    }
}

/// Fill style, stroke style and whether edges are antialiased. Two brushes
/// are equal when all of these are.
#[derive(Debug, Clone, Copy, PartialEq, Eq, Structural, Hash)]
pub struct Brush {
    pub fill_style: FillStyle,
    pub stroke_style: StrokeStyle,
    pub antialias: bool,
}

impl Default for Brush {
    /// A brush that draws nothing: transparent fill, transparent stroke
    /// (otherwise the default stroke), no antialiasing.
    fn default() -> (brush: Self)
        ensures
            brush == Brush::blank(),
    {
        Brush {
            fill_style: FillStyle { color: Color::transparent() },
            stroke_style: StrokeStyle::default().color(Color::transparent()),
            antialias: false,
        }
    }
}

impl Brush {
    /// The default brush.
    pub open spec fn blank() -> Brush {
        Brush {
            fill_style: FillStyle { color: Color { r: 0, g: 0, b: 0, a: 0 } },
            stroke_style: StrokeStyle {
                color: Color { r: 0, g: 0, b: 0, a: 0 },
                line_width: 2,
                line_join: LineJoin::Miter,
                line_cap: LineCap::Butt,
                allow_overlap: false,
            },
            antialias: false,
        }
    }

    /// The default brush with the fill colour `fill_color`.
    pub fn filled(fill_color: Color) -> (brush: Self)
        ensures
            brush == (Brush { fill_style: FillStyle { color: fill_color }, ..Brush::blank() }),
    {
        Brush { fill_style: FillStyle { color: fill_color }, ..Brush::default() }
    }

    /// Whether antialiasing is on.
    pub fn is_antialias(&self) -> (on: bool)
        ensures
            on == self.antialias,
    {
        self.antialias
    }

    /// The same brush with antialiasing switched on or off.
    pub fn antialias(self, enable: bool) -> (brush: Self)
        ensures
            brush == (Brush { antialias: enable, ..self }),
    {
        Brush { antialias: enable, ..self }
    }

    /// The fill colour.
    pub fn get_fill_color(&self) -> (color: Color)
        ensures
            color == self.fill_style.color,
    {
        self.fill_style.color
    }

    /// The same brush with the fill colour `color`.
    pub fn fill_color(self, color: Color) -> (brush: Self)
        ensures
            brush == (Brush { fill_style: FillStyle { color }, ..self }),
    {
        Brush { fill_style: FillStyle { color }, ..self }
    }

    /// The same brush with the default fill style.
    pub fn reset_fill(self) -> (brush: Self)
        ensures
            brush == (Brush { fill_style: Brush::blank().fill_style, ..self }),
    {
        Brush { fill_style: FillStyle::default(), ..self }
    }

    /// The same brush with the default stroke style, which is opaque white.
    pub fn reset_stroke(self) -> (brush: Self)
        ensures
            brush == (Brush {
                stroke_style: StrokeStyle {
                    color: Color { r: 255, g: 255, b: 255, a: 255 },
                    ..Brush::blank().stroke_style
                },
                ..self
            }),
    {
        Brush { stroke_style: StrokeStyle::default(), ..self }
    }

    /// The same brush with a transparent fill.
    pub fn no_fill(self) -> (brush: Self)
        ensures
            brush == (Brush { fill_style: Brush::blank().fill_style, ..self }),
    {
        Brush { fill_style: FillStyle { color: Color::transparent() }, ..self }
    }

    /// The same brush with a transparent stroke; the rest of the stroke
    /// style stays.
    pub fn no_stroke(self) -> (brush: Self)
        ensures
            brush == (Brush {
                stroke_style: StrokeStyle {
                    color: Color { r: 0, g: 0, b: 0, a: 0 },
                    ..self.stroke_style
                },
                ..self
            }),
    {
        Brush { stroke_style: self.stroke_style.color(Color::transparent()), ..self }
    }

    /// The same brush with the fill style `fill_style`.
    pub fn fill_style(self, fill_style: FillStyle) -> (brush: Self)
        ensures
            brush == (Brush { fill_style, ..self }),
    {
        Brush { fill_style, ..self }
    }

    /// The colour that strokes are drawn in.
    pub fn get_stroke_color(&self) -> (color: Color)
        ensures
            color == self.stroke_style.color,
    {
        self.stroke_style.color
    }

    /// The same brush with the stroke colour `color`.
    pub fn stroke_color(self, color: Color) -> (brush: Self)
        ensures
            brush == (Brush { stroke_style: StrokeStyle { color, ..self.stroke_style }, ..self }),
    {
        Brush { stroke_style: self.stroke_style.color(color), ..self }
    }

    /// The same brush with the stroke width `line_width`, in pixels.
    pub fn line_width(self, line_width: u32) -> (brush: Self)
        ensures
            brush == (Brush {
                stroke_style: StrokeStyle { line_width, ..self.stroke_style },
                ..self
            }),
    {
        Brush { stroke_style: self.stroke_style.line_width(line_width), ..self }
    }

    /// The same brush with the stroke style `stroke_style`.
    pub fn stroke_style(self, stroke_style: StrokeStyle) -> (brush: Self)
        ensures
            brush == (Brush { stroke_style, ..self }),
    {
        Brush { stroke_style, ..self }
    }

    /// The same brush with the line join `line_join`.
    pub fn line_join(self, line_join: LineJoin) -> (brush: Self)
        ensures
            brush == (Brush {
                stroke_style: StrokeStyle { line_join, ..self.stroke_style },
                ..self
            }),
    {
        Brush { stroke_style: self.stroke_style.line_join(line_join), ..self }
    }

    /// The same brush with the line cap `line_cap`.
    pub fn line_cap(self, line_cap: LineCap) -> (brush: Self)
        ensures
            brush == (Brush { stroke_style: StrokeStyle { line_cap, ..self.stroke_style }, ..self }),
    {
        Brush { stroke_style: self.stroke_style.line_cap(line_cap), ..self }
    }

    /// The default brush.
    pub fn reset(self) -> (brush: Self)
        ensures
            brush == Brush::blank(),
    {
        Brush::default()
    }

    /// Whether the brush leaves no mark: fill and stroke are both transparent.
    pub open spec fn draws_nothing(&self) -> bool {
        self.fill_style.color.shows_nothing() && self.stroke_style.color.shows_nothing()
    }

    /// Whether the brush leaves no mark: fill and stroke are both transparent.
    pub fn nothing_to_draw(&self) -> (nothing: bool)
        ensures
            nothing == self.draws_nothing(),
    {
        self.fill_style.color.is_transparent() && self.stroke_style.color.is_transparent()
    }

    /// `consequent` applied to the brush and the value in `opt`; the brush
    /// itself where `opt` is empty.
    pub fn some<T, F: FnOnce(Self, T) -> Self>(self, opt: Option<T>, consequent: F) -> (brush: Self)
        requires
            opt matches Some(v) ==> call_requires(consequent, (self, v)),
        ensures
            opt is None ==> brush == self,
            opt matches Some(v) ==> call_ensures(consequent, (self, v), brush),
    {
        match opt {
            Some(v) => consequent(self, v),
            None => self,
        }
    }

    /// `consequent` applied to the brush where `cond` holds; the brush itself
    /// where it does not.
    pub fn when<F: FnOnce(Self) -> Self>(self, cond: bool, consequent: F) -> (brush: Self)
        requires
            cond ==> call_requires(consequent, (self,)),
        ensures
            !cond ==> brush == self,
            cond ==> call_ensures(consequent, (self,), brush),
    {
        if cond {
            consequent(self)
        } else {
            self
        }
    }

    /// `consequent` applied to the brush where `cond` holds, `alternate`
    /// where it does not.
    pub fn when_or<C: FnOnce(Self) -> Self, A: FnOnce(Self) -> Self>(
        self,
        cond: bool,
        consequent: C,
        alternate: A,
    ) -> (brush: Self)
        requires
            cond ==> call_requires(consequent, (self,)),
            !cond ==> call_requires(alternate, (self,)),
        ensures
            cond ==> call_ensures(consequent, (self,), brush),
            !cond ==> call_ensures(alternate, (self,), brush),
    {
        if cond {
            consequent(self)
        } else {
            alternate(self)
        }
    }
}

} // verus!
