use ara::brush::FillStyle;
use ara::brush::StrokeStyle;
use ara::color::Color;
use ara::config::CanvasRenderingContextConfig;
use ara::config::MsaaSampleLevel;
use ara::config::RenderTargetConfig;
use ara::config::TextureFormat;
use ara::config::TextureUsages;
use ara::config::COPY_SRC;
use ara::config::RENDER_ATTACHMENT;
use ara::config::TEXTURE_BINDING;
use ara::math::Corners;
use ara::math::Rect;
use ara::path::Path;
use ara::path::Point;
use ara::scene::GfxPathEntry;
use ara::scene::GfxPathInstruction;
use ara::scene::GraphicsContext;
use ara::scene::GraphicsContextId;
use ara::scene::GraphicsInstructionKind;
use ara::scene::Span;
use ara::transform::Transform;

/// A length in pixels as coordinate units.
fn fx(v: f32) -> i32 {
    (v * 256.0).round() as i32
}

fn vec2(x: f32, y: f32) -> Point {
    Point::new(fx(x), fx(y))
}

#[test]
fn test_graphic_context_push_instruction() {
    let mut cx = GraphicsContext::new(GraphicsContextId::new(0));
    let color = Color::white();

    cx.rect(Rect::xywh(fx(0.0), fx(0.0), fx(100.0), fx(100.0)));
    cx.fill(color);
    cx.stroke(color);

    cx.circle(vec2(100.0, 100.0), fx(50.0));
    cx.fill(color);
    cx.stroke(color);

    let instructions = cx.get_instructions();
    assert_eq!(cx.get_path().get_entry(GfxPathEntry { start: 0, end: 2 }).len(), 2);
    assert_eq!(instructions.len(), 4);
    assert!(matches!(
        instructions[0].kind,
        GraphicsInstructionKind::Fill {
            path: GfxPathEntry { start: 0, end: 1 },
            ..
        }
    ));
    assert!(matches!(
        instructions[1].kind,
        GraphicsInstructionKind::Stroke {
            path: GfxPathEntry { start: 0, end: 1 },
            ..
        }
    ));
    assert!(matches!(
        instructions[2].kind,
        GraphicsInstructionKind::Fill {
            path: GfxPathEntry { start: 1, end: 2 },
            ..
        }
    ));
    assert!(matches!(
        instructions[3].kind,
        GraphicsInstructionKind::Stroke {
            path: GfxPathEntry { start: 1, end: 2 },
            ..
        }
    ));
}

#[test]
fn graphics_context_draws_fill_and_stroke_of_one_shape_in_one_go() {
    let mut cx = GraphicsContext::new(GraphicsContextId::new(7));
    assert_eq!(cx.id(), GraphicsContextId(7));
    assert!(!cx.is_dirty());
    // Nothing to fill yet.
    cx.fill(Color::red());
    assert!(cx.get_instructions().is_empty());
    assert!(!cx.is_dirty());

    cx.rect(Rect::xywh(0, 0, 10, 10));
    cx.fill(Color::red());
    cx.set_line_width(5);
    cx.stroke(Color::blue());
    // A fill that repeats the last instruction but one is recorded; one
    // that repeats the last is not.
    cx.stroke(Color::blue());
    cx.circle(Point::new(0, 0), 5);
    cx.translate(3, 4);
    cx.fill(Color::green());
    cx.rect(Rect::xywh(0, 0, 1, 1));
    cx.stroke(Color::black());
    cx.fill(Color::black());
    cx.fill(Color::white());
    assert!(cx.is_dirty());
    assert_eq!(cx.get_instructions().len(), 6);

    let mut batched = cx.batched();
    let first = batched.next().unwrap();
    assert_eq!(first.path, GfxPathEntry { start: 0, end: 1 });
    assert_eq!(first.fill, Some(FillStyle::from_color(Color::red())));
    assert_eq!(first.stroke, Some(StrokeStyle::default().color(Color::blue()).line_width(5)));
    assert_eq!(first.transform, Transform::identity());
    let second = batched.next().unwrap();
    assert_eq!(second.path, GfxPathEntry { start: 1, end: 2 });
    assert_eq!(second.fill, Some(FillStyle::from_color(Color::green())));
    assert_eq!(second.stroke, None);
    assert_eq!(second.transform, Transform::translation(3, 4));
    // A stroke followed by a fill is drawn in one go too; a second fill is
    // not.
    let third = batched.next().unwrap();
    assert_eq!(third.path, GfxPathEntry { start: 2, end: 3 });
    assert_eq!(third.stroke.unwrap().color, Color::black());
    assert_eq!(third.fill, Some(FillStyle::from_color(Color::black())));
    let fourth = batched.next().unwrap();
    assert_eq!(fourth.fill, Some(FillStyle::from_color(Color::white())));
    assert_eq!(fourth.stroke, None);
    assert!(batched.next().is_none());

    cx.mark_clean();
    assert!(!cx.is_dirty());
    cx.clear();
    assert!(cx.is_dirty());
    assert!(cx.get_instructions().is_empty());
}

#[test]
fn graphics_context_state_is_saved_and_restored() {
    let mut cx = GraphicsContext::new(GraphicsContextId::new(1));
    cx.set_clip(Rect::xywh(0, 0, 100, 100));
    cx.save();
    cx.set_clip(Rect::xywh(50, 50, 100, 100));
    assert_eq!(cx.get_clip(), Rect::xywh(50, 50, 50, 50));
    cx.set_clip(Rect::xywh(500, 500, 1, 1));
    assert_eq!(cx.get_clip().width, 0);
    cx.set_line_width(9);
    cx.set_line_join(ara::brush::LineJoin::Round);
    cx.set_line_cap(ara::brush::LineCap::Square);
    cx.scale(2 * 65536, 65536);
    cx.restore();
    assert_eq!(cx.get_clip(), Rect::xywh(0, 0, 100, 100));
    assert_eq!(cx.get_line_width(), 2);
    assert_eq!(cx.get_line_join(), ara::brush::LineJoin::Miter);
    assert_eq!(cx.get_line_cap(), ara::brush::LineCap::Butt);
    // Nothing is left to restore.
    cx.restore();
    assert_eq!(cx.get_clip(), Rect::xywh(0, 0, 100, 100));
    cx.reset_clip();
    assert_eq!(cx.get_clip(), ara::batch::clip_everything());
    cx.translate(1, 1);
    cx.reset_transform();
    cx.set_line_width(4);
    cx.reset();
    assert_eq!(cx.get_line_width(), 2);
}

#[test]
fn graphics_context_paths_and_rounded_rects() {
    let mut builder = Path::builder();
    builder.triangle(Point::new(0, 0), Point::new(10, 0), Point::new(0, 10));
    let path = builder.build();
    let mut cx = GraphicsContext::new(GraphicsContextId::new(2));
    cx.round_rect(Rect::xywh(0, 0, 10, 10), Corners::with_all(2));
    cx.path(&mut path.events());
    cx.path(&mut path.events());
    cx.fill(Color::red());
    let shapes = cx.get_path().get_entry(GfxPathEntry { start: 0, end: 3 });
    assert_eq!(
        shapes[0],
        GfxPathInstruction::RoundRect { bounds: Rect::xywh(0, 0, 10, 10), corners: Corners::with_all(2) }
    );
    assert_eq!(
        shapes[1],
        GfxPathInstruction::Path {
            points: Span { start: 0, end: 4 },
            verbs: Span { start: 0, end: 4 }
        }
    );
    assert_eq!(
        shapes[2],
        GfxPathInstruction::Path {
            points: Span { start: 4, end: 8 },
            verbs: Span { start: 4, end: 8 }
        }
    );
    assert_eq!(cx.get_instructions()[0].kind.path(), GfxPathEntry { start: 0, end: 3 });
}

#[test]
fn rendering_configs() {
    let config = CanvasRenderingContextConfig::new();
    assert_eq!(config, CanvasRenderingContextConfig::default());
    assert_eq!((config.width, config.height, config.msaa_sample_count), (1, 1, 1));
    assert_eq!(config.format, TextureFormat::Rgba8Unorm);
    assert_eq!(config.usage.bits, RENDER_ATTACHMENT);
    let config = config
        .width(0)
        .height(600)
        .surface_format(TextureFormat::Bgra8Unorm)
        .add_surface_usage(TextureUsages { bits: COPY_SRC })
        .msaa_samples(MsaaSampleLevel::Four);
    assert_eq!((config.width, config.height, config.msaa_sample_count), (1, 600, 4));
    assert_eq!(config.format, TextureFormat::Bgra8Unorm);
    assert_eq!(config.usage.bits, RENDER_ATTACHMENT | COPY_SRC);
    assert!(config.usage.contains(TextureUsages::render_attachment()));
    assert!(!config.usage.contains(TextureUsages { bits: TEXTURE_BINDING }));
    assert_eq!(MsaaSampleLevel::One.sample_count(), 1);
    assert_eq!(MsaaSampleLevel::Eight.sample_count(), 8);

    let target = RenderTargetConfig::new();
    assert_eq!(target, RenderTargetConfig::default());
    assert!(!target.antialias);
    let target = target
        .width(800)
        .height(0)
        .antialias(true)
        .surface_format(TextureFormat::R8Unorm)
        .add_surface_usage(TextureUsages { bits: TEXTURE_BINDING });
    assert_eq!((target.width, target.height, target.antialias), (800, 1, true));
    assert_eq!(target.format, TextureFormat::R8Unorm);
    assert_eq!(target.usage.bits, RENDER_ATTACHMENT | TEXTURE_BINDING);
}
