use ara::atlas::AtlasTextureInfo;
use ara::atlas::AtlasTile;
use ara::atlas::UvRect;
use ara::batch::check_instructions;
use ara::batch::check_primitive;
use ara::batch::clip_everything;
use ara::batch::GraphicsInstruction;
use ara::brush::Brush;
use ara::canvas::Canvas;
use ara::canvas::CanvasState;
use ara::color::Color;
use ara::math::Corners;
use ara::math::Rect;
use ara::mesh::AtlasImage;
use ara::mesh::AtlasKey;
use ara::mesh::TextureId;
use ara::mesh::TextureKind;
use ara::mesh::Uv;
use ara::path::builder::PathBuilder;
use ara::path::Point;
use ara::path_brush::PathBrush;
use ara::primitives::circle;
use ara::primitives::quad;
use ara::primitives::Primitive;
use ara::transform::Transform;

const ONE: i32 = 256;

fn tile(texture: u32, x: i32, y: i32) -> AtlasTextureInfo {
    AtlasTextureInfo { tile: AtlasTile { texture, uv_rect: UvRect { x, y, width: 4096, height: 4096 } } }
}

fn key(id: u64) -> AtlasKey {
    AtlasKey::Image(AtlasImage { id, texture_kind: TextureKind::Color })
}

fn image(id: u64) -> TextureId {
    TextureId::AtlasKey(key(id))
}

fn canvas() -> Canvas {
    Canvas::new(&tile(7, 100, 200))
}

fn square() -> Rect {
    Rect::xywh(0, 0, 10 * ONE, 10 * ONE)
}

fn red() -> Brush {
    Brush::filled(Color::red())
}

#[test]
fn canvas_starts_empty_in_the_initial_state() {
    let mut canvas = canvas();
    assert_eq!(canvas.get_clip_rect(), clip_everything());
    assert_eq!(canvas.get_clear_color(), Color::white());
    assert_eq!(CanvasState::default(), CanvasState::new());
    assert_eq!(CanvasState::new().transform, Transform::identity());
    assert!(canvas.get_required_atlas_keys().is_empty());
    canvas.prepare_for_render();
    assert!(canvas.renderables().is_empty());
}

#[test]
fn canvas_draws_in_the_state_of_the_moment() {
    let mut canvas = canvas();
    canvas.draw_rect(&square(), red());
    canvas.translate(5 * ONE, 3 * ONE);
    canvas.draw_rect(&square(), red());
    canvas.prepare_for_render();
    // Two states, two stages: the shapes are not batched together.
    let drawn = canvas.renderables();
    assert_eq!(drawn.len(), 2);
    assert_eq!(drawn[0].mesh.vertices.len(), 4);
    assert_eq!(drawn[0].mesh.vertices[0].pos, Point::new(0, 0));
    assert_eq!(drawn[1].mesh.vertices[0].pos, Point::new(5 * ONE, 3 * ONE));
    assert_eq!(drawn[1].mesh.indices, vec![0, 1, 2, 0, 2, 3]);
}

#[test]
fn canvas_batches_the_shapes_of_one_state() {
    let mut canvas = canvas();
    canvas.draw_rect(&square(), red());
    canvas.draw_circle(0, 0, 4 * ONE, red());
    canvas.draw_round_rect(&square(), &Corners::with_all(ONE), red());
    canvas.prepare_for_render();
    let drawn = canvas.renderables();
    assert_eq!(drawn.len(), 1);
    assert_eq!(drawn[0].mesh.texture, TextureId::white_texture());
    assert!(drawn[0].mesh.vertices.len() > 8);
}

#[test]
fn canvas_clips_are_intersected_saved_and_restored() {
    let mut canvas = canvas();
    let outer = Rect::xywh(0, 0, 100, 100);
    let inner = Rect::xywh(50, 60, 100, 100);
    canvas.clip(&outer);
    assert_eq!(canvas.get_clip_rect(), outer);
    canvas.save();
    canvas.clip(&inner);
    assert_eq!(canvas.get_clip_rect(), Rect::xywh(50, 60, 50, 40));
    canvas.draw_rect(&square(), red());
    canvas.restore();
    assert_eq!(canvas.get_clip_rect(), outer);
    canvas.draw_rect(&square(), red());
    // Nothing is saved any more: the state stays.
    canvas.restore();
    assert_eq!(canvas.get_clip_rect(), outer);
    canvas.prepare_for_render();
    let clips: Vec<Rect> = canvas.renderables().iter().map(|r| r.clip_rect).collect();
    assert_eq!(clips, vec![Rect::xywh(50, 60, 50, 40), outer]);
    canvas.reset_clip();
    assert_eq!(canvas.get_clip_rect(), clip_everything());
    // Rectangles that do not meet leave a clip without size.
    canvas.clip(&Rect::xywh(0, 0, 10, 10));
    canvas.clip(&Rect::xywh(20, 20, 10, 10));
    assert_eq!(canvas.get_clip_rect(), Rect::xywh(20, 20, 0, 0));
}

#[test]
fn canvas_reset_goes_back_to_the_initial_state() {
    let mut canvas = canvas();
    canvas.clear_color(Color::red());
    canvas.clip(&Rect::xywh(0, 0, 100, 100));
    canvas.save();
    canvas.scale(2 * 65536, 65536);
    canvas.rotate(0, 65536);
    canvas.reset();
    assert_eq!(canvas.get_clear_color(), Color::white());
    assert_eq!(canvas.get_clip_rect(), clip_everything());
    // The saved state is forgotten.
    canvas.restore();
    assert_eq!(canvas.get_clip_rect(), clip_everything());
    canvas.draw_rect(&square(), red());
    canvas.prepare_for_render();
    assert_eq!(canvas.renderables()[0].mesh.vertices[2].pos, Point::new(10 * ONE, 10 * ONE));
}

#[test]
fn canvas_scales_and_turns_what_is_drawn() {
    let mut canvas = canvas();
    canvas.scale(2 * 65536, 3 * 65536);
    canvas.draw_rect(&square(), red());
    canvas.reset();
    // A quarter turn: (x, y) goes to (-y, x).
    canvas.rotate(0, 65536);
    canvas.draw_rect(&square(), red());
    canvas.prepare_for_render();
    let drawn = canvas.renderables();
    assert_eq!(drawn[0].mesh.vertices[2].pos, Point::new(20 * ONE, 30 * ONE));
    assert_eq!(drawn[1].mesh.vertices[1].pos, Point::new(0, 10 * ONE));
    assert_eq!(drawn[1].mesh.vertices[2].pos, Point::new(-10 * ONE, 10 * ONE));
}

#[test]
fn canvas_names_the_atlas_keys_of_its_stages_once() {
    let mut canvas = canvas();
    canvas.draw_image(&square(), &image(2));
    canvas.draw_image(&square(), &image(1));
    canvas.draw_image(&square(), &TextureId::Texture(9));
    // Pending instructions are in no stage yet.
    assert!(canvas.get_required_atlas_keys().is_empty());
    canvas.stage_changes();
    canvas.draw_image_rounded(&square(), &Corners::with_all(ONE), &image(2));
    canvas.draw_image(&square(), &image(3));
    canvas.draw_rect(&square(), red());
    canvas.stage_changes();
    // Closing a stage without instructions closes nothing.
    canvas.stage_changes();
    assert_eq!(
        canvas.get_required_atlas_keys(),
        vec![key(2), key(1), key(3), AtlasKey::WhiteTexture]
    );
}

#[test]
fn canvas_resolves_the_tiles_that_it_was_told_of() {
    let mut canvas = canvas();
    canvas.draw_image(&square(), &image(1));
    canvas.draw_image(&square(), &image(2));
    canvas.draw_rect(&square(), red());
    canvas.draw_image(&square(), &image(3));
    assert!(!canvas.knows_atlas_key(&key(1)));
    assert!(canvas.record_atlas_info(key(1), tile(7, 0, 0)));
    assert!(canvas.record_atlas_info(key(2), tile(7, 4096, 0)));
    assert!(canvas.record_atlas_info(AtlasKey::WhiteTexture, tile(7, 100, 200)));
    // What is known stays as it is.
    assert!(!canvas.record_atlas_info(key(2), tile(8, 0, 0)));
    assert!(canvas.knows_atlas_key(&key(2)));
    canvas.prepare_for_render();
    let drawn = canvas.renderables();
    // Three shapes on the texture of the atlas, and the image that the atlas
    // does not know on its own.
    assert_eq!(drawn.len(), 2);
    assert_eq!(drawn[0].mesh.texture, TextureId::Atlas(7));
    assert_eq!(drawn[0].mesh.vertices.len(), 12);
    assert_eq!(drawn[1].mesh.texture, image(3));
    // The corner of the second tile, and the white coordinate for the shape
    // without a texture: the corner of the white tile.
    assert_eq!(drawn[0].mesh.vertices[4].uv, Uv { u: 4096, v: 0 });
    assert_eq!(drawn[0].mesh.vertices[6].uv, Uv { u: 8192, v: 4096 });
    assert!(drawn[0].mesh.vertices[8..].iter().all(|v| v.uv == Uv { u: 100, v: 200 }));
}

#[test]
fn canvas_render_passes_add_up_until_cleared() {
    let mut canvas = canvas();
    canvas.draw_rect(&square(), red());
    canvas.prepare_for_render();
    assert_eq!(canvas.renderables().len(), 1);
    // The stage is still there: a second pass draws it again.
    canvas.prepare_for_render();
    assert_eq!(canvas.renderables().len(), 2);
    canvas.clear();
    assert!(canvas.renderables().is_empty());
    canvas.prepare_for_render();
    assert!(canvas.renderables().is_empty());
    // What draws nothing gives nothing.
    canvas.draw_rect(&square(), Brush::default());
    canvas.prepare_for_render();
    assert!(canvas.renderables().is_empty());
}

#[test]
fn canvas_draws_paths_with_the_brushes_of_their_subpaths() {
    let mut builder = PathBuilder::new();
    builder.begin(Point::new(0, 0));
    builder.line_to(Point::new(10 * ONE, 0));
    builder.line_to(Point::new(10 * ONE, 10 * ONE));
    builder.close();
    let path = builder.build();
    let mut canvas = canvas();
    canvas.draw_path(path, PathBrush::new(red()));
    canvas.prepare_for_render();
    let drawn = canvas.renderables();
    assert_eq!(drawn.len(), 1);
    assert_eq!(drawn[0].mesh.indices.len(), 3);
    assert!(drawn[0].mesh.vertices.iter().all(|v| v.color == Color::red()));
}

#[test]
fn shapes_that_do_not_fit_the_coordinates_are_told_apart() {
    let fits = GraphicsInstruction::brush(Primitive::Quad(quad().rect(square())), red());
    let edge = 0x2000_0000;
    let too_wide = GraphicsInstruction::textured_brush(
        Primitive::Quad(quad().rect(Rect::xywh(edge - 10, 0, 11, 1))),
        TextureId::Texture(1),
        red(),
    );
    let backwards =
        GraphicsInstruction::brush(Primitive::Quad(quad().rect(Rect::xywh(0, 0, -1, 1))), red());
    let far = GraphicsInstruction::brush(
        Primitive::Circle(circle().pos(edge - 5, 0).radius(6)),
        red(),
    );
    let near = GraphicsInstruction::brush(
        Primitive::Circle(circle().pos(edge - 5, 0).radius(-5)),
        red(),
    );
    assert_eq!(too_wide.texture_id, TextureId::Texture(1));
    assert_eq!(too_wide.brush, red());
    assert!(check_primitive(&fits.primitive));
    assert!(check_primitive(&near.primitive));
    assert!(!check_primitive(&too_wide.primitive));
    assert!(!check_primitive(&backwards.primitive));
    assert!(!check_primitive(&far.primitive));
    assert!(check_instructions(&vec![]));
    assert!(check_instructions(&vec![fits, near]));
    let fits = GraphicsInstruction::brush(Primitive::Quad(quad().rect(square())), red());
    assert!(!check_instructions(&vec![fits, far]));
}
