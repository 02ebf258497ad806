use ara::atlas::AtlasTextureInfo;
use ara::atlas::AtlasTextureInfoMap;
use ara::atlas::AtlasTile;
use ara::atlas::UvRect;
use ara::batch::build_renderable;
use ara::batch::clip_everything;
use ara::batch::GraphicsInstruction;
use ara::batch::GraphicsInstructionBatcher;
use ara::brush::Brush;
use ara::brush::FillStyle;
use ara::brush::LineCap;
use ara::brush::LineJoin;
use ara::brush::StrokeStyle;
use ara::color::Color;
use ara::draw_list::DrawList;
use ara::earcut::Earcut;
use ara::fill::cw_signed_area;
use ara::fill::fill_path_concave;
use ara::fill::fill_path_convex;
use ara::math::isqrt;
use ara::math::Corners;
use ara::math::Rect;
use ara::mesh::AtlasImage;
use ara::mesh::AtlasKey;
use ara::mesh::GlyphImage;
use ara::mesh::Mesh;
use ara::mesh::TextureId;
use ara::mesh::TextureKind;
use ara::mesh::Uv;
use ara::path::builder::PathBuilder;
use ara::path::geo::get_path_bounds;
use ara::path::geo::PathGeometryBuilder;
use ara::path::Path;
use ara::path::Polygon;
use ara::path::Point;
use ara::path_brush::PathBrush;
use ara::primitives::circle;
use ara::primitives::quad;
use ara::primitives::Primitive;
use ara::stroke::StrokeTessellator;
use ara::transform::Transform;

const ONE: i32 = 256;

fn pts(coords: &[(i32, i32)]) -> Vec<Point> {
    coords.iter().map(|&(x, y)| Point::new(x * ONE, y * ONE)).collect()
}

fn square() -> Vec<Point> {
    // Clockwise on a screen whose y grows downwards, closed.
    pts(&[(0, 0), (10, 0), (10, 10), (0, 10), (0, 0)])
}

fn indices_in_range(mesh: &Mesh) -> bool {
    mesh.indices.len() % 3 == 0
        && mesh.indices.iter().all(|&i| (i as usize) < mesh.vertices.len())
}

#[test]
fn convex_fill_without_feather_is_a_fan() {
    let mut mesh = Mesh::new();
    let mut scratch = Vec::new();
    fill_path_convex(&mut mesh, &mut scratch, &square(), Color::red(), false, 0, None, |_| {});
    assert_eq!(mesh.vertices.len(), 4);
    assert_eq!(mesh.indices, vec![0, 1, 2, 0, 2, 3]);
    assert!(mesh.vertices.iter().all(|v| v.color == Color::red() && v.uv == Uv { u: 0, v: 0 }));
    assert_eq!(mesh.vertices[2].pos, Point::new(2560, 2560));
}

#[test]
fn convex_fill_textured_takes_uv_from_the_bounding_box() {
    let mut mesh = Mesh::new();
    let mut scratch = Vec::new();
    fill_path_convex(&mut mesh, &mut scratch, &square(), Color::white(), true, 0, None, |_| {});
    let uvs: Vec<Uv> = mesh.vertices.iter().map(|v| v.uv).collect();
    assert_eq!(
        uvs,
        vec![
            Uv { u: 0, v: 0 },
            Uv { u: 65536, v: 0 },
            Uv { u: 65536, v: 65536 },
            Uv { u: 0, v: 65536 }
        ]
    );
}

#[test]
fn convex_fill_with_feather_has_an_inner_and_an_outer_ring() {
    let mut mesh = Mesh::new();
    let mut scratch = Vec::new();
    fill_path_convex(&mut mesh, &mut scratch, &square(), Color::red(), false, 2 * ONE, None, |_| {});
    // Two vertices for each corner; a fan of two triangles and a band of
    // two triangles for each edge.
    assert_eq!(mesh.vertices.len(), 8);
    assert_eq!(mesh.indices.len(), 3 * 2 + 6 * 4);
    assert!(indices_in_range(&mesh));
    assert_eq!(&mesh.indices[..6], &[2, 0, 4, 4, 0, 6]);
    for pair in mesh.vertices.chunks(2) {
        assert_eq!(pair[0].color, Color::red());
        assert_eq!(pair[1].color, Color::red().with_alpha(0));
    }
    // The first pair belongs to the last corner, (0, 10): half the feather
    // inwards and outwards along the diagonal.
    let d = 181;
    assert_eq!(mesh.vertices[0].pos, Point::new(d, 2560 - d));
    assert_eq!(mesh.vertices[1].pos, Point::new(-d, 2560 + d));
}

#[test]
fn convex_fill_fades_to_the_given_colour() {
    let mut mesh = Mesh::new();
    let mut scratch = Vec::new();
    fill_path_convex(
        &mut mesh,
        &mut scratch,
        &square(),
        Color::red(),
        false,
        ONE,
        Some(Color::blue()),
        |_| {},
    );
    assert_eq!(mesh.vertices[1].color, Color::blue());
}

#[test]
fn fills_skip_what_draws_nothing() {
    let mut mesh = Mesh::new();
    let mut scratch = Vec::new();
    let mut earcut = Earcut::new();
    fill_path_convex(&mut mesh, &mut scratch, &square(), Color::transparent(), false, 0, None, |_| {});
    assert!(mesh.is_empty());
    fill_path_convex(&mut mesh, &mut scratch, &pts(&[(0, 0), (1, 1)]), Color::red(), false, 0, None, |_| {});
    assert!(mesh.is_empty());
    // Two corners and the closing point: no ring.
    fill_path_convex(
        &mut mesh,
        &mut scratch,
        &pts(&[(0, 0), (1, 1), (0, 0)]),
        Color::red(),
        false,
        0,
        None,
        |_| {},
    );
    assert!(mesh.is_empty());
    fill_path_concave(
        &mut mesh,
        &mut scratch,
        &square(),
        &mut earcut,
        &FillStyle::default(),
        0,
        |_| {},
    );
    assert!(mesh.is_empty());
}

#[test]
fn concave_fill_uses_the_triangulation() {
    let mut mesh = Mesh::new();
    mesh.add_vertex(Point::new(0, 0), Color::black(), Uv { u: 0, v: 0 });
    let mut scratch = Vec::new();
    let mut earcut = Earcut::new();
    let path = pts(&[(0, 0), (20, 0), (20, 10), (10, 10), (10, 20), (0, 20), (0, 0)]);
    fill_path_concave(
        &mut mesh,
        &mut scratch,
        &path,
        &mut earcut,
        &FillStyle::from_color(Color::green()),
        0,
        |_| {},
    );
    assert_eq!(mesh.vertices.len(), 1 + 6);
    assert_eq!(mesh.indices.len(), 4 * 3);
    assert!(mesh.indices.iter().all(|&i| (1..7).contains(&i)));

    let mut feathered = Mesh::new();
    fill_path_concave(
        &mut feathered,
        &mut scratch,
        &path,
        &mut earcut,
        &FillStyle::from_color(Color::green()),
        ONE,
        |_| {},
    );
    assert_eq!(feathered.vertices.len(), 12);
    assert_eq!(feathered.indices.len(), 4 * 3 + 6 * 6);
    assert!(indices_in_range(&feathered));
    // The triangles of the fill join inner vertices only.
    assert!(feathered.indices[..12].iter().all(|&i| i % 2 == 0));
}

#[test]
fn concave_fill_of_a_triangle_is_one_triangle() {
    let mut mesh = Mesh::new();
    let mut scratch = Vec::new();
    let mut earcut = Earcut::new();
    fill_path_concave(
        &mut mesh,
        &mut scratch,
        &pts(&[(0, 0), (10, 0), (10, 10)]),
        &mut earcut,
        &FillStyle::from_color(Color::green()),
        0,
        |_| {},
    );
    assert_eq!(mesh.vertices.len(), 3);
    assert_eq!(mesh.indices, vec![1, 2, 0]);
}

fn stroke_index_count(points: usize, closed: bool, join: LineJoin, cap: LineCap) -> usize {
    let edges = points - 1;
    let corners = if closed { points - 1 } else { points - 2 };
    let ends = if closed { 0 } else { 2 };
    let per_join = match join {
        LineJoin::Bevel => 3,
        LineJoin::Miter => 6,
        LineJoin::Round => 24,
    };
    let per_cap = match cap {
        LineCap::Butt => 0,
        LineCap::Square => 6,
        LineCap::Round => 24,
    };
    6 * edges + per_join * corners + per_cap * ends
}

#[test]
fn stroke_index_count_depends_on_points_and_styles_only() {
    let joins = [LineJoin::Miter, LineJoin::Bevel, LineJoin::Round];
    let caps = [LineCap::Butt, LineCap::Square, LineCap::Round];
    let closed_a = pts(&[(0, 0), (10, 0), (10, 10), (0, 10), (0, 0)]);
    let closed_b = pts(&[(5, 5), (300, 7), (250, 400), (-20, 90), (5, 5)]);
    let open_a = pts(&[(0, 0), (10, 0), (10, 10), (0, 10)]);
    let open_b = pts(&[(0, 0), (7, 3), (40, -10), (41, 41)]);
    for join in joins {
        for cap in caps {
            let style = StrokeStyle::default().line_join(join).line_cap(cap).line_width(3);
            for (path, closed) in
                [(&closed_a, true), (&closed_b, true), (&open_a, false), (&open_b, false)]
            {
                let mut mesh = Mesh::new();
                StrokeTessellator::add_to_mesh(&mut mesh, path, &style);
                assert_eq!(
                    mesh.indices.len(),
                    stroke_index_count(path.len(), closed, join, cap)
                );
                assert!(indices_in_range(&mesh));
                assert!(mesh.vertices.iter().all(|v| v.color == Color::white()));
            }
        }
    }
}

#[test]
fn stroke_of_a_closed_square_with_miter_joins() {
    let style = StrokeStyle::default().line_width(2);
    let mut mesh = Mesh::new();
    StrokeTessellator::add_to_mesh(&mut mesh, &square(), &style);
    // Four edges and four corners.
    assert_eq!(mesh.indices.len(), 4 * 6 + 4 * 6);
    assert_eq!(mesh.vertices.len(), 4 * 4 + 4 * 4);
    // The quad of the first edge, from (0, 0) to (10, 0): one pixel to
    // each side.
    assert_eq!(mesh.vertices[0].pos, Point::new(0, -256));
    assert_eq!(mesh.vertices[1].pos, Point::new(0, 256));
    assert_eq!(mesh.vertices[2].pos, Point::new(2560, -256));
    assert_eq!(mesh.vertices[3].pos, Point::new(2560, 256));
    assert_eq!(&mesh.indices[..6], &[0, 1, 2, 2, 1, 3]);
}

#[test]
fn stroke_skips_what_draws_nothing() {
    let mut mesh = Mesh::new();
    StrokeTessellator::add_to_mesh(&mut mesh, &square(), &StrokeStyle::default().line_width(0));
    assert!(mesh.is_empty());
    StrokeTessellator::add_to_mesh(
        &mut mesh,
        &square(),
        &StrokeStyle::default().color(Color::transparent()),
    );
    assert!(mesh.is_empty());
    StrokeTessellator::add_to_mesh(&mut mesh, &pts(&[(3, 3)]), &StrokeStyle::default());
    assert!(mesh.is_empty());
    assert_eq!(mesh.vertex_count(), 0);
    assert_eq!(mesh.index_count(), 0);
}

#[test]
fn stroke_caps_of_an_open_line() {
    let line = pts(&[(0, 0), (10, 0)]);
    let mut butt = Mesh::new();
    StrokeTessellator::add_to_mesh(&mut butt, &line, &StrokeStyle::default());
    assert_eq!(butt.indices.len(), 6);
    let mut square_cap = Mesh::new();
    StrokeTessellator::add_to_mesh(&mut square_cap, &line, &StrokeStyle::default().square_cap());
    assert_eq!(square_cap.indices.len(), 6 + 2 * 6);
    // The cap at the start carries the line on to the left by half its width.
    assert!(square_cap.vertices.iter().any(|v| v.pos.x == -256));
    assert!(square_cap.vertices.iter().any(|v| v.pos.x == 2560 + 256));
    let mut round = Mesh::new();
    StrokeTessellator::add_to_mesh(&mut round, &line, &StrokeStyle::default().round_cap());
    assert_eq!(round.indices.len(), 6 + 2 * 24);
    // No point of a round cap lies further from its end than half the width.
    for v in &round.vertices {
        let dx = (v.pos.x.min(0) + (v.pos.x - 2560).max(0)) as i64;
        let dy = v.pos.y as i64;
        assert!(dx * dx + dy * dy <= 257 * 257);
    }
}

#[test]
fn draw_list_rect() {
    let mut list = DrawList::new();
    let rect = quad().rect(Rect::xywh(0, 0, 10 * ONE, 10 * ONE));
    list.add_quad(&rect, &Brush::default(), false, None);
    assert_eq!(list.vertex_count(), 0);
    list.add_quad(&rect, &Brush::filled(Color::red()), false, None);
    assert_eq!(list.vertex_count(), 4);
    list.add_quad(
        &rect,
        &Brush::filled(Color::red()),
        false,
        Some(Transform::translation(5 * ONE, 0)),
    );
    let mesh = list.build();
    assert_eq!(mesh.vertices.len(), 8);
    assert_eq!(mesh.indices, vec![0, 1, 2, 0, 2, 3, 4, 5, 6, 4, 6, 7]);
    assert_eq!(mesh.vertices[4].pos, Point::new(5 * ONE, 0));
    assert_eq!(mesh.texture, TextureId::white_texture());
    assert_eq!(list.vertex_count(), 0);
}

#[test]
fn draw_list_feathers_antialiased_brushes_only() {
    let mut list = DrawList::new();
    list.feathering(2 * ONE);
    let rect = quad().rect(Rect::xywh(0, 0, 10 * ONE, 10 * ONE));
    list.add_quad(&rect, &Brush::filled(Color::red()), false, None);
    assert_eq!(list.vertex_count(), 4);
    list.clear();
    list.add_quad(&rect, &Brush::filled(Color::red()).antialias(true), false, None);
    assert_eq!(list.vertex_count(), 8);
}

#[test]
fn draw_list_circle_and_rounded_rect() {
    let mut list = DrawList::new();
    list.add_circle(
        &circle().pos(0, 0).radius(10 * ONE),
        &Brush::filled(Color::red()),
        false,
        None,
    );
    let round = list.vertex_count();
    assert!(round >= 16);
    let mesh = list.build();
    assert!(indices_in_range(&mesh));
    assert_eq!(mesh.indices.len(), 3 * (round - 2));

    list.add_quad(
        &quad().rect(Rect::xywh(0, 0, 100 * ONE, 50 * ONE)).corners(Corners::with_all(10 * ONE)),
        &Brush::filled(Color::red()).stroke_color(Color::black()).line_width(1),
        false,
        None,
    );
    let mesh = list.build();
    assert!(indices_in_range(&mesh));
    assert!(mesh.vertices.len() > 16);
}

#[test]
fn draw_list_path_with_a_brush_for_each_subpath() {
    let mut builder = Path::builder();
    let first = builder.triangle(Point::new(0, 0), Point::new(2560, 0), Point::new(2560, 2560));
    let second = builder.triangle(Point::new(0, 0), Point::new(0, 2560), Point::new(-2560, 0));
    let path = builder.build();
    let mut brushes = PathBrush::new(Brush::default());
    brushes.set(first, Brush::filled(Color::red()));
    brushes.set(second, Brush::filled(Color::blue()));
    let mut list = DrawList::new();
    list.add_path(&path, &brushes, None);
    let mesh = list.build();
    assert_eq!(mesh.vertices.len(), 6);
    assert_eq!(mesh.indices.len(), 6);
    assert!(mesh.vertices[..3].iter().all(|v| v.color == Color::red()));
    assert!(mesh.vertices[3..].iter().all(|v| v.color == Color::blue()));
    assert!(indices_in_range(&mesh));
}

#[test]
fn draw_list_map_range_and_remap() {
    let mut list = DrawList::new();
    let rect = quad().rect(Rect::xywh(0, 0, 10 * ONE, 10 * ONE));
    list.add_quad(&rect, &Brush::filled(Color::red()), true, None);
    list.map_range(0..2, |mut v| {
        v.color = Color::blue();
        v
    });
    let info = AtlasTextureInfo {
        tile: AtlasTile {
            texture: 3,
            uv_rect: UvRect { x: 32768, y: 0, width: 16384, height: 65536 },
        },
    };
    list.remap_uv(0, 4, &info, None);
    let mesh = list.build();
    assert_eq!(mesh.vertices[0].color, Color::blue());
    assert_eq!(mesh.vertices[2].color, Color::red());
    assert_eq!(mesh.vertices[0].uv, Uv { u: 32768, v: 0 });
    assert_eq!(mesh.vertices[2].uv, Uv { u: 32768 + 16384, v: 65536 });
}

fn image(id: u64) -> TextureId {
    TextureId::AtlasKey(AtlasKey::Image(AtlasImage { id, texture_kind: TextureKind::Color }))
}

fn instruction(texture: TextureId) -> GraphicsInstruction {
    GraphicsInstruction::textured(
        Primitive::Quad(quad().rect(Rect::xywh(0, 0, 10 * ONE, 10 * ONE))),
        texture,
    )
}

#[test]
fn batcher_makes_one_batch_for_each_run() {
    let atlas = AtlasTextureInfoMap::new();
    let a = TextureId::Texture(1);
    let b = TextureId::Texture(2);
    let instructions = vec![instruction(a), instruction(a), instruction(b), instruction(a)];
    let mut batcher = GraphicsInstructionBatcher::new(&instructions, &atlas);
    assert_eq!(batcher.len(), 3);
    let first = batcher.next().unwrap();
    assert_eq!((first.start, first.end, first.renderer_texture), (0, 2, a));
    assert_eq!(batcher.instructions_of(&first), vec![0, 1]);
    let second = batcher.next().unwrap();
    assert_eq!((second.start, second.end, second.renderer_texture), (2, 3, b));
    let third = batcher.next().unwrap();
    assert_eq!((third.start, third.end, third.renderer_texture), (3, 4, a));
    assert_eq!(batcher.instructions_of(&third), vec![3]);
    assert!(batcher.next().is_none());
}

#[test]
fn batcher_alternating_textures_never_merge() {
    let atlas = AtlasTextureInfoMap::new();
    let textures = [TextureId::Texture(1), TextureId::Texture(2)];
    for n in 0..9 {
        let instructions: Vec<GraphicsInstruction> =
            (0..n).map(|i| instruction(textures[i % 2])).collect();
        let batcher = GraphicsInstructionBatcher::new(&instructions, &atlas);
        assert_eq!(batcher.len(), n);
    }
}

#[test]
fn batcher_splits_on_the_clip_rectangle() {
    let atlas = AtlasTextureInfoMap::new();
    let mut clipped = instruction(TextureId::Texture(1));
    clipped.clip_rect = Rect::xywh(0, 0, 100, 100);
    let instructions = vec![instruction(TextureId::Texture(1)), clipped];
    let mut batcher = GraphicsInstructionBatcher::new(&instructions, &atlas);
    assert_eq!(batcher.len(), 2);
    assert_eq!(batcher.next().unwrap().clip_rect, clip_everything());
    assert_eq!(batcher.next().unwrap().clip_rect, Rect::xywh(0, 0, 100, 100));
}

#[test]
fn batcher_resolves_atlas_keys_and_drops_what_draws_nothing() {
    let mut atlas = AtlasTextureInfoMap::new();
    let tile = |texture: u32| AtlasTextureInfo {
        tile: AtlasTile { texture, uv_rect: UvRect { x: 0, y: 0, width: 65536, height: 65536 } },
    };
    let key = |id: u64| AtlasKey::Image(AtlasImage { id, texture_kind: TextureKind::Color });
    assert!(atlas.insert(key(1), tile(7)));
    assert!(atlas.insert(key(2), tile(7)));
    assert!(atlas.insert(AtlasKey::WhiteTexture, tile(7)));
    assert!(!atlas.insert(key(2), tile(8)));
    assert_eq!(atlas.get(&key(2)), Some(tile(7)));
    assert!(atlas.contains_key(&key(1)));
    assert!(!atlas.contains_key(&key(3)));

    let mut nothing = instruction(image(3));
    nothing.brush = Brush::default();
    // Two images and an untextured shape on one atlas texture, one shape that
    // draws nothing, and an image that the atlas does not know.
    let instructions = vec![
        instruction(image(1)),
        instruction(image(2)),
        nothing,
        GraphicsInstruction::brush(
            Primitive::Quad(quad().rect(Rect::xywh(0, 0, ONE, ONE))),
            Brush::filled(Color::red()),
        ),
        instruction(image(3)),
    ];
    let mut batcher = GraphicsInstructionBatcher::new(&instructions, &atlas);
    assert_eq!(batcher.len(), 2);
    let first = batcher.next().unwrap();
    assert_eq!(first.renderer_texture, TextureId::Atlas(7));
    assert_eq!(batcher.instructions_of(&first), vec![0, 1, 3]);
    let second = batcher.next().unwrap();
    assert_eq!(second.renderer_texture, image(3));
    assert_eq!(batcher.instructions_of(&second), vec![4]);

    let mut list = DrawList::new();
    let positions = batcher.instructions_of(&first);
    let white = Uv { u: 11, v: 22 };
    let renderable =
        build_renderable(&mut list, &instructions, &positions, &atlas, &first, white).unwrap();
    assert_eq!(renderable.mesh.texture, TextureId::Atlas(7));
    assert_eq!(renderable.clip_rect, clip_everything());
    assert_eq!(renderable.mesh.vertices.len(), 12);
    assert!(indices_in_range(&renderable.mesh));
    // The untextured shape carries the white coordinate of the atlas.
    assert!(renderable.mesh.vertices[8..].iter().all(|v| v.uv == white));
    assert_eq!(renderable.mesh.vertices[2].uv, Uv { u: 65536, v: 65536 });

    let empty = build_renderable(&mut list, &instructions, &vec![2], &atlas, &first, white);
    assert!(empty.is_none());
}

#[test]
fn atlas_key_kinds() {
    assert_eq!(AtlasKey::WhiteTexture.texture_kind(), TextureKind::Color);
    let glyph = |is_emoji| AtlasKey::from_glyph(GlyphImage { key: 9, is_emoji });
    assert_eq!(glyph(true).texture_kind(), TextureKind::Color);
    assert_eq!(glyph(false).texture_kind(), TextureKind::Mask);
    let mask = AtlasKey::from_image(AtlasImage { id: 1, texture_kind: TextureKind::Mask });
    assert_eq!(mask.texture_kind(), TextureKind::Mask);
    assert!(TextureKind::Color.is_color());
    assert!(!TextureKind::Mask.is_color());
}

#[test]
fn transform_moves_and_clamps() {
    let p = Point::new(100, -50);
    assert_eq!(Transform::identity().apply(p), p);
    assert!(Transform::identity().is_identity());
    assert_eq!(Transform::translation(5, 6).apply(p), Point::new(105, -44));
    assert_eq!(Transform::scaling(2 * 65536, 65536 / 2).apply(p), Point::new(200, -25));
    let far = Transform::scaling(i32::MAX, i32::MAX).apply(Point::new(1 << 20, -(1 << 20)));
    assert_eq!(far, Point::new(0x2000_0000, -0x2000_0000));
    let quarter_turn = Transform { xx: 0, xy: -65536, yx: 65536, yy: 0, dx: 0, dy: 0 };
    assert_eq!(quarter_turn.apply(p), Point::new(50, 100));
}

#[test]
fn integer_square_roots() {
    assert_eq!(isqrt(0), 0);
    assert_eq!(isqrt(1), 1);
    assert_eq!(isqrt(15), 3);
    assert_eq!(isqrt(16), 4);
    assert_eq!(isqrt(u64::MAX), 0xffff_ffff);
    assert_eq!(isqrt(0xffff_fffe_0000_0001), 0xffff_ffff);
    assert_eq!(isqrt(0xffff_fffe_0000_0000), 0xffff_fffe);
}

#[test]
fn path_bounds() {
    assert_eq!(get_path_bounds(&[]), None);
    assert_eq!(
        get_path_bounds(&[Point::new(3, 9), Point::new(-4, 2), Point::new(0, 20)]),
        Some(Rect::xywh(-4, 2, 7, 18))
    );
}

#[test]
fn flattening_leaves_no_edge_without_length() {
    let mut path = PathBuilder::default();
    // A closed ring that visits a point twice in a row and ends where it began.
    path.begin(Point::new(0, 0));
    path.line_to(Point::new(100, 0));
    path.line_to(Point::new(100, 0));
    path.quadratic_to(Point::new(100, 0), Point::new(100, 0));
    path.line_to(Point::new(100, 100));
    path.line_to(Point::new(0, 0));
    path.close();
    // A subpath that is a single point.
    path.add_point(Point::new(7, 7));
    let mut output = Vec::new();
    let mut geometry = PathGeometryBuilder::new(path.path_events());
    let ring = geometry.next(&mut output).unwrap().1;
    assert_eq!(
        &output[ring.clone()],
        &[Point::new(0, 0), Point::new(100, 0), Point::new(100, 100), Point::new(0, 0)]
    );
    for pair in output[ring].windows(2) {
        assert_ne!(pair[0], pair[1]);
    }
    let point = geometry.next(&mut output).unwrap().1;
    assert_eq!(&output[point], &[Point::new(7, 7)]);
    assert!(geometry.next(&mut output).is_none());
}

#[test]
fn automatic_segments_follow_the_control_polygon() {
    let p = |x: i32, y: i32| Point::new(x * ONE, y * ONE);
    // Short curves get the minimum.
    assert_eq!(PathGeometryBuilder::calc_quadratic_segments(p(0, 0), p(5, 5), p(10, 0)), 4);
    // 70 pixels of control polygon at 7 pixels for each segment.
    assert_eq!(PathGeometryBuilder::calc_quadratic_segments(p(0, 0), p(35, 0), p(70, 0)), 10);
    assert_eq!(
        PathGeometryBuilder::calc_cubic_segments(p(0, 0), p(0, 100), p(100, 100), p(100, 0)),
        43
    );
    // Long curves get the maximum.
    assert_eq!(
        PathGeometryBuilder::calc_cubic_segments(p(0, 0), p(0, 1000), p(1000, 1000), p(1000, 0)),
        64
    );
    // A curve that returns to its start has no chord: the minimum.
    assert_eq!(
        PathGeometryBuilder::calc_cubic_segments(p(0, 0), p(0, 1000), p(1000, 1000), p(0, 0)),
        4
    );
}

#[test]
fn round_rect_with_the_largest_radii_is_a_stadium() {
    // All radii half the shorter side: the ends are half circles and the
    // long sides keep a straight part of the difference of the sides.
    let w = 100 * ONE;
    let h = 40 * ONE;
    let r = h / 2;
    let mut path = Path::builder();
    path.round_rect(&Rect::xywh(0, 0, w, h), &Corners::with_all(r));
    let points = path.get_points().clone();
    assert_eq!(points.len(), 17);
    // The straight edges: top and bottom of length w - 2r, left and right
    // of length 0; none overlaps or runs backwards.
    assert_eq!(points[3], Point::new(r, 0));
    assert_eq!(points[4], Point::new(w - r, 0));
    assert_eq!(points[7], points[8]);
    assert_eq!(points[11], Point::new(w - r, h));
    assert_eq!(points[12], Point::new(r, h));
    assert_eq!(points[15], points[16]);
    // Sampled boundary points lie on the stadium, to within two units.
    let mut output = Vec::new();
    let mut geometry = PathGeometryBuilder::new(path.path_events()).with_segments(32);
    let ring = geometry.next(&mut output).unwrap().1;
    for p in &output[ring] {
        let cx = p.x.clamp(r, w - r);
        let dx = (p.x - cx) as f64;
        let dy = (p.y - r) as f64;
        let distance = (dx * dx + dy * dy).sqrt();
        assert!((distance - r as f64).abs() <= 0.0005 * r as f64 + 2.0, "{:?}", p);
    }
    // Radii larger than fit are clamped to the same shape.
    let mut clamped = Path::builder();
    clamped.round_rect(&Rect::xywh(0, 0, w, h), &Corners::with_all(10 * h));
    assert_eq!(clamped.get_points(), &points);
}

#[test]
fn clockwise_area_is_positive() {
    let at = |coords: &[(i32, i32)]| -> Vec<Point> {
        coords.iter().map(|&(x, y)| Point::new(x, y)).collect()
    };
    let square = at(&[(0, 0), (10, 0), (10, 10), (0, 10)]);
    assert_eq!(cw_signed_area(&square), 200);
    let turned = at(&[(0, 10), (10, 10), (10, 0), (0, 0)]);
    assert_eq!(cw_signed_area(&turned), -200);
    assert_eq!(cw_signed_area(&[]), 0);
    assert_eq!(cw_signed_area(&at(&[(3, 4)])), 0);
    // The largest coordinates do not overflow the sum.
    let wide = at(&[(i32::MIN, i32::MIN), (i32::MAX, i32::MIN), (i32::MAX, i32::MAX)]);
    let side = i32::MAX as i128 - i32::MIN as i128;
    assert_eq!(cw_signed_area(&wide), side * side);
}

#[test]
fn color_channels_by_index() {
    let mut color = Color::from_rgba(0x11223344);
    assert_eq!([color.channel(0), color.channel(1), color.channel(2), color.channel(3)], [
        0x11, 0x22, 0x33, 0x44
    ]);
    color.set_channel(1, 0xaa);
    color.set_channel(3, 0xbb);
    assert_eq!(color.to_rgba(), 0x11aa33bb);
    color.set_channel(0, 0);
    color.set_channel(2, 0xff);
    assert_eq!(color.to_array(), [0, 0xaa, 0xff, 0xbb]);
}

#[test]
fn fills_skip_short_rings_whatever_the_feather() {
    let mut scratch = Vec::new();
    let mut earcut = Earcut::new();
    let red = FillStyle { color: Color::red() };
    let clear = FillStyle { color: Color::transparent() };
    let two = [Point::new(0, 0), Point::new(10, 0), Point::new(0, 0)];
    for feather in [i32::MIN, -1, 0, 1, 512, i32::MAX] {
        let mut mesh = Mesh::new();
        fill_path_concave(&mut mesh, &mut scratch, &two, &mut earcut, &red, feather, |_| {});
        fill_path_concave(&mut mesh, &mut scratch, &square(), &mut earcut, &clear, feather, |_| {});
        fill_path_convex(&mut mesh, &mut scratch, &two, Color::red(), false, feather, None, |_| {});
        fill_path_convex(&mut mesh, &mut scratch, &square(), Color::transparent(), true, feather, None, |_| {});
        assert!(mesh.is_empty());
        assert_eq!(mesh.vertices.len(), 0);
    }
    // A feather of less than nothing is none; one beyond the widest is the widest.
    let mut plain = Mesh::new();
    fill_path_concave(&mut plain, &mut scratch, &square(), &mut earcut, &red, 0, |_| {});
    let mut less = Mesh::new();
    fill_path_concave(&mut less, &mut scratch, &square(), &mut earcut, &red, -7, |_| {});
    assert_eq!(less.vertices, plain.vertices);
    assert_eq!(less.indices, plain.indices);
    let mut widest = Mesh::new();
    fill_path_convex(&mut widest, &mut scratch, &square(), Color::red(), false, 0x10_0000, None, |_| {});
    let mut wider = Mesh::new();
    fill_path_convex(&mut wider, &mut scratch, &square(), Color::red(), false, i32::MAX, None, |_| {});
    assert_eq!(wider.vertices, widest.vertices);
    assert_eq!(wider.vertices.len(), 8);
}

#[test]
fn draw_list_stroke_count_does_not_depend_on_the_coordinates() {
    let stroke_only = |join: LineJoin| {
        PathBrush::new(
            Brush::filled(Color::transparent()).stroke_color(Color::red()).line_width(3).line_join(join),
        )
    };
    let polygon = |points: &[Point]| {
        let mut builder = Path::builder();
        builder.polygon(Polygon { points, closed: true });
        builder.build()
    };
    let square = [Point::new(0, 0), Point::new(2560, 0), Point::new(2560, 2560), Point::new(0, 2560)];
    let kite = [Point::new(-70, 13), Point::new(500, -900), Point::new(4000, 20), Point::new(600, 1100)];
    for (join, each) in [(LineJoin::Bevel, 3), (LineJoin::Miter, 6), (LineJoin::Round, 24)] {
        let mut counts = Vec::new();
        for points in [&square, &kite] {
            let mut list = DrawList::new();
            list.add_path(&polygon(points), &stroke_only(join), None);
            let mesh = list.build();
            assert_eq!(mesh.indices.len() % 3, 0);
            assert!(indices_in_range(&mesh));
            counts.push(mesh.indices.len());
        }
        // Four edges and four joins, whatever the corners.
        assert_eq!(counts, vec![4 * 6 + 4 * each, 4 * 6 + 4 * each]);
    }
}

#[test]
fn feathered_fills_tell_of_every_vertex() {
    let mut scratch = Vec::new();
    let mut earcut = Earcut::new();
    let mut told: Vec<Point> = Vec::new();
    let mut mesh = Mesh::new();
    fill_path_convex(&mut mesh, &mut scratch, &square(), Color::red(), false, 2 * ONE, None, |p| {
        told.push(p)
    });
    let places: Vec<Point> = mesh.vertices.iter().map(|v| v.pos).collect();
    assert_eq!(told.len(), 8);
    assert_eq!(told, places);

    let mut told: Vec<Point> = Vec::new();
    let mut mesh = Mesh::new();
    let red = FillStyle { color: Color::red() };
    fill_path_concave(&mut mesh, &mut scratch, &square(), &mut earcut, &red, 2 * ONE, |p| {
        told.push(p)
    });
    let places: Vec<Point> = mesh.vertices.iter().map(|v| v.pos).collect();
    assert_eq!(told, places);

    // A fill without a feather tells of nothing.
    let mut told: Vec<Point> = Vec::new();
    let mut mesh = Mesh::new();
    fill_path_convex(&mut mesh, &mut scratch, &square(), Color::red(), false, 0, None, |p| {
        told.push(p)
    });
    fill_path_concave(&mut mesh, &mut scratch, &square(), &mut earcut, &red, 0, |p| told.push(p));
    assert_eq!(mesh.vertices.len(), 8);
    assert!(told.is_empty());
}
