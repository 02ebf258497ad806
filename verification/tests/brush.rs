use ara::brush::Brush;
use ara::brush::FillStyle;
use ara::brush::LineCap;
use ara::brush::LineJoin;
use ara::brush::StrokeStyle;
use ara::color::Color;
use ara::math::Corners;
use ara::math::Rect;
use ara::path::builder::PathBuilder;
use ara::path::geo::PathGeometryBuilder;
use ara::path::Contour;
use ara::path::Point;
use ara::path::Polygon;
use ara::path_brush::PathBrush;

/// A length in pixels as coordinate units.
fn fx(v: f32) -> i32 {
    (v * 256.0).round() as i32
}

fn vec2(x: f32, y: f32) -> Point {
    Point::new(fx(x), fx(y))
}

#[test]
fn paint_brush_with_path() {
    let mut path = PathBuilder::default();

    let mut brush = PathBrush::default();

    let leg_paint = Brush::filled(Color::red()).line_width(10);

    path.begin(vec2(0.0, 0.0));
    path.line_to(vec2(-20.0, 100.0));
    let leg_l = path.end(false);
    brush.set(leg_l, leg_paint.clone());

    path.begin(vec2(0.0, 0.0));
    path.line_to(vec2(20.0, 100.0));
    let leg_r = path.end(false);
    brush.set(leg_r, leg_paint.clone());

    let head_paint = Brush::filled(Color::white());
    let head = path.circle(vec2(0.0, 0.0), fx(10.0));
    brush.set(head, head_paint.clone());

    let mut output = <Vec<Point>>::new();

    let mut builder = PathGeometryBuilder::new(path.path_events());

    let leg_l_build = builder.next(&mut output).expect("no contour").0;
    assert_eq!(leg_l, leg_l_build);

    let leg_r_build = builder.next(&mut output).expect("no contour").0;
    assert_eq!(leg_r, leg_r_build);

    let head_build = builder.next(&mut output).expect("no contour").0;
    assert_eq!(head, head_build);

    assert_eq!(builder.next(&mut output), None);

    assert_eq!(brush.get_or_default(&leg_l_build), leg_paint.clone());
    assert_eq!(brush.get_or_default(&leg_r_build), leg_paint);
    assert_eq!(brush.get_or_default(&head_build), head_paint);
}

#[test]
fn path_brush_falls_back_to_its_default() {
    let mut brush = PathBrush::new(Brush::filled(Color::blue()));
    brush.set(Contour(5), Brush::filled(Color::green()));
    assert_eq!(brush.get_or_default(&Contour(5)), Brush::filled(Color::green()));
    assert_eq!(brush.get_or_default(&Contour(6)), Brush::filled(Color::blue()));
    brush.set(Contour(5), Brush::filled(Color::gold()));
    assert_eq!(brush.get_or_default(&Contour(5)), Brush::filled(Color::gold()));
    brush.set_default(Brush::default());
    assert_eq!(brush.get_or_default(&Contour(6)), Brush::default());
    assert_eq!(brush.get_default(), Brush::default());
}

#[test]
fn brush_default_draws_nothing() {
    let brush = Brush::default();
    assert!(brush.nothing_to_draw());
    assert!(!brush.is_antialias());
    assert_eq!(brush.get_fill_color(), Color::transparent());
    assert_eq!(brush.stroke_style.line_width, 2);
    assert_eq!(brush.stroke_style.line_join, LineJoin::Miter);
    assert_eq!(brush.stroke_style.line_cap, LineCap::Butt);
    assert!(!brush.stroke_style.allow_overlap);
}

#[test]
fn brush_builders_set_one_thing_each() {
    let brush = Brush::filled(Color::red());
    assert!(!brush.nothing_to_draw());
    assert_eq!(brush.get_fill_color(), Color::red());
    assert_eq!(brush.get_stroke_color(), Color::transparent());
    assert_eq!(brush.stroke_color(Color::blue()).get_stroke_color(), Color::blue());
    assert_eq!(brush.stroke_color(Color::blue()).get_fill_color(), Color::red());
    assert!(brush.antialias(true).is_antialias());
    assert_eq!(brush.fill_color(Color::blue()).get_fill_color(), Color::blue());
    assert_eq!(brush.stroke_color(Color::blue()).stroke_style.color, Color::blue());
    assert_eq!(brush.line_width(7).stroke_style.line_width, 7);
    assert_eq!(brush.line_join(LineJoin::Round).stroke_style.line_join, LineJoin::Round);
    assert_eq!(brush.line_cap(LineCap::Square).stroke_style.line_cap, LineCap::Square);
    assert!(brush.no_fill().nothing_to_draw());
    assert!(!brush.stroke_color(Color::blue()).no_fill().nothing_to_draw());
    assert!(brush.stroke_color(Color::blue()).no_fill().no_stroke().nothing_to_draw());
    assert_eq!(brush.reset(), Brush::default());
    assert_eq!(brush.reset_fill().get_fill_color(), Color::transparent());
    assert_eq!(brush.no_stroke().reset_stroke().stroke_style, StrokeStyle::default());
    assert_eq!(brush.fill_style(FillStyle::default()).fill_style, FillStyle::default());
    assert_eq!(
        brush.stroke_style(StrokeStyle::default().round_cap()).stroke_style.line_cap,
        LineCap::Round
    );
}

#[test]
fn brush_conditionals() {
    let brush = Brush::default();
    assert_eq!(brush.when(true, |b| b.line_width(9)).stroke_style.line_width, 9);
    assert_eq!(brush.when(false, |b| b.line_width(9)).stroke_style.line_width, 2);
    assert_eq!(
        brush.when_or(false, |b| b.line_width(9), |b| b.line_width(4)).stroke_style.line_width,
        4
    );
    assert_eq!(
        brush.when_or(true, |b| b.line_width(9), |b| b.line_width(4)).stroke_style.line_width,
        9
    );
    assert_eq!(brush.some(Some(3), |b, w| b.line_width(w)).stroke_style.line_width, 3);
    assert_eq!(brush.some(None, |b, w: u32| b.line_width(w)).stroke_style.line_width, 2);
}

#[test]
fn stroke_style_builders() {
    let style = StrokeStyle::default();
    assert_eq!(style.color, Color::white());
    assert!(style.allow_overlap(true).allow_overlap);
    assert_eq!(style.color(Color::black()).color, Color::black());
    assert_eq!(style.line_width(5).line_width, 5);
    assert_eq!(style.line_join(LineJoin::Bevel).line_join, LineJoin::Bevel);
    assert_eq!(style.line_cap(LineCap::Round).line_cap, LineCap::Round);
    assert_eq!(style.bevel_join().line_join, LineJoin::Bevel);
    assert_eq!(style.round_join().line_join, LineJoin::Round);
    assert_eq!(style.round_join().miter_join().line_join, LineJoin::Miter);
    assert_eq!(style.round_join().default_join().line_join, LineJoin::Miter);
    assert_eq!(style.round_cap().line_cap, LineCap::Round);
    assert_eq!(style.square_cap().line_cap, LineCap::Square);
    assert_eq!(style.square_cap().default_cap().line_cap, LineCap::Butt);
    assert!(style.line_width(0).is_noop());
    assert!(style.color(Color::transparent()).is_noop());
    assert!(!style.is_noop());
    assert_eq!(FillStyle::default().color(Color::red()), FillStyle::from_color(Color::red()));
}

#[test]
fn color_from_words() {
    assert_eq!(Color::from_rgb(0xff8040), Color { r: 0xff, g: 0x80, b: 0x40, a: 0xff });
    assert_eq!(Color::from_rgb(0x12ff8040), Color { r: 0xff, g: 0x80, b: 0x40, a: 0xff });
    assert_eq!(Color::from_rgba(0xff804020), Color { r: 0xff, g: 0x80, b: 0x40, a: 0x20 });
    assert_eq!(Color::from_rgb_additive(0xff804020), Color { r: 0xff, g: 0x80, b: 0x40, a: 0 });
    assert_eq!(Color::from_rgba(0xff804020).to_rgba(), 0xff804020);
    assert_eq!(Color::from_array([1, 2, 3, 4]).to_array(), [1, 2, 3, 4]);
    assert_eq!(Color::from_array([1, 2, 3, 4]).channel(0), 1);
    assert_eq!(Color::from_array([1, 2, 3, 4]).channel(3), 4);
    assert!(Color::from_rgb_additive(0xffffffff).is_transparent());
    assert!(Color::transparent().is_transparent());
    assert!(!Color::white().is_transparent());
    assert_eq!(Color::default(), Color::transparent());
    assert_eq!(Color::red(), Color::from_rgb(0xff0000));
    assert_eq!(Color::thamar_black(), Color::from_rgb(0x181818));
    assert_eq!(Color::light_gray(), Color::from_rgb(0xdcdcdc));
    assert_eq!(Color::red().with_alpha(7).a, 7);
}

#[test]
fn path_builder_with_brush_paints_subpaths_as_they_end() {
    let mut both = PathBuilder::default().with_brush();
    let red = Brush::filled(Color::red());
    let blue = Brush::filled(Color::blue());
    both.with_default_brush(blue);

    both.path.begin(Point::new(0, 0));
    both.path.line_to(Point::new(10, 0));
    both.end(false, red);
    both.rect(&Rect::xywh(0, 0, 10, 10), blue);
    both.path.begin(Point::new(5, 5));
    both.path.line_to(Point::new(6, 5));
    both.path.line_to(Point::new(6, 6));
    both.close(red);
    both.circle(Point::new(0, 0), 100, red);
    both.round_rect(&Rect::xywh(0, 0, 100, 100), &Corners::with_all(10), blue);
    let corners = [Point::new(0, 0), Point::new(4, 0), Point::new(0, 4)];
    both.polygon(Polygon { points: &corners, closed: true }, red);

    let (path, brush) = both.split();
    // The handle of a subpath is the number of points at its end.
    assert_eq!(brush.get_or_default(&Contour(2)), red);
    assert_eq!(brush.get_or_default(&Contour(7)), blue);
    assert_eq!(brush.get_or_default(&Contour(11)), red);
    assert_eq!(brush.get_or_default(&Contour(25)), red);
    assert_eq!(brush.get_or_default(&Contour(path.point_count())), red);
    // No subpath ends at three points: the default brush.
    assert_eq!(brush.get_or_default(&Contour(3)), blue);
    assert_eq!(brush.get_default(), blue);
    assert_eq!(PathBrush::from_brush(red).get_or_default(&Contour(1)), red);
}
