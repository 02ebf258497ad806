use ara::math::Corners;
use ara::math::Rect;
use ara::path::builder::PathBuilder;
use ara::path::geo::PathGeometryBuilder;
use ara::path::Contour;
use ara::path::Point;

/// A length in pixels as coordinate units.
fn fx(v: f32) -> i32 {
    (v * 256.0).round() as i32
}

fn vec2(x: f32, y: f32) -> Point {
    Point::new(fx(x), fx(y))
}

/// Same number of points, each within one coordinate unit (1/256 pixel) of
/// the expected one on both axes.
fn assert_close(actual: &[Point], expected: &[Point]) {
    assert_eq!(actual.len(), expected.len());
    for (i, (a, e)) in actual.iter().zip(expected.iter()).enumerate() {
        assert!(
            (a.x - e.x).abs() <= 1 && (a.y - e.y).abs() <= 1,
            "point {}: {:?} is not within one unit of {:?}",
            i,
            a,
            e
        );
    }
}

#[test]
fn path_geometry_build_basic() {
    let mut output = <Vec<Point>>::new();

    let mut path = PathBuilder::default();
    path.begin(vec2(0.0, 0.0));
    path.line_to(vec2(0.0, 10.0));
    path.line_to(vec2(0.0, 20.0));
    path.line_to(vec2(0.0, 30.0));
    path.end(false);

    path.begin(vec2(100.0, 100.0));
    path.line_to(vec2(200.0, 300.0));
    path.close();

    let mut geo_build = PathGeometryBuilder::new(path.path_events());

    let contours = geo_build
        .collect(&mut output)
        .into_iter()
        .map(|v| v.1)
        .collect::<Vec<_>>();

    assert_eq!(output.len(), 7);
    assert_eq!(contours.len(), 2);

    {
        let start = contours[0].start;
        let end = contours[0].end;
        let points = &output[start..end];

        assert_eq!(
            points,
            &[vec2(0.0, 0.0), vec2(0.0, 10.0), vec2(0.0, 20.0), vec2(0.0, 30.0)]
        );
    }

    {
        let start = contours[1].start;
        let end = contours[1].end;
        let points = &output[start..end];
        assert_eq!(points, &[vec2(100.0, 100.0), vec2(200.0, 300.0), vec2(100.0, 100.0)]);
    }
}

#[test]
fn path_geometry_contours() {
    let mut output = <Vec<Point>>::new();
    let mut path = PathBuilder::default();
    path.begin(vec2(0.0, 0.0));
    path.line_to(vec2(0.0, 10.0));
    path.line_to(vec2(0.0, 20.0));
    path.line_to(vec2(0.0, 30.0));
    path.end(false);

    path.begin(vec2(100.0, 100.0));
    path.line_to(vec2(200.0, 300.0));
    path.close();

    path.circle(vec2(0.0, 0.0), fx(5.0));
    path.rect(&Rect::xywh(fx(10.0), fx(10.0), fx(100.0), fx(100.0)));
    path.round_rect(
        &Rect::xywh(fx(100.0), fx(100.0), fx(100.0), fx(100.0)),
        &Corners::with_all(fx(20.0)),
    );

    let mut geo_build = PathGeometryBuilder::new(path.path_events());

    let contours = geo_build.collect(&mut output);
    assert_eq!(contours.len(), 5);
}

#[test]
fn path_geometry_quadratic_bezier() {
    let mut output = <Vec<Point>>::new();

    let mut path = PathBuilder::default();
    path.begin(vec2(0.0, 0.0));
    path.quadratic_to(vec2(5.0, 5.0), vec2(10.0, 0.0));
    path.end(false);

    let mut geo_build = PathGeometryBuilder::new(path.path_events()).with_segments(16);
    let range = geo_build.next(&mut output).expect("no contours found").1;
    assert!(geo_build.next(&mut output).is_none());

    let points = &output[range];
    assert_eq!(
        points,
        &[
            vec2(0.0, 0.0),
            vec2(0.625, 0.5859375),
            vec2(1.25, 1.09375),
            vec2(1.875, 1.5234375),
            vec2(2.5, 1.875),
            vec2(3.125, 2.1484375),
            vec2(3.75, 2.34375),
            vec2(4.375, 2.4609375),
            vec2(5.0, 2.5),
            vec2(5.625, 2.4609375),
            vec2(6.25, 2.34375),
            vec2(6.875, 2.1484375),
            vec2(7.5, 1.875),
            vec2(8.125, 1.5234375),
            vec2(8.75, 1.09375),
            vec2(9.375, 0.5859375),
            vec2(10.0, 0.0),
        ]
    );
}

#[test]
fn path_geometry_cubic_bezier() {
    let mut output = <Vec<Point>>::new();

    let mut path = PathBuilder::default();
    path.begin(vec2(0.0, 0.0));
    path.cubic_to(vec2(0.0, 4.0), vec2(6.0, 0.0), vec2(6.0, 8.0));
    path.end(false);

    let mut geo_build = PathGeometryBuilder::new(path.path_events()).with_segments(16);

    let range = geo_build.next(&mut output).expect("no contours found").1;
    let points = &output[range];

    let expected_points = [
        vec2(0.0, 0.0),
        vec2(0.06738281, 0.6611328),
        vec2(0.2578125, 1.1640625),
        vec2(0.55371094, 1.5380859),
        vec2(0.9375, 1.8125),
        vec2(1.3916016, 2.0166016),
        vec2(1.8984375, 2.1796875),
        vec2(2.4404297, 2.3310547),
        vec2(3.0, 2.5),
        vec2(3.5595703, 2.7158203),
        vec2(4.1015625, 3.0078125),
        vec2(4.6083984, 3.4052734),
        vec2(5.0625, 3.9375),
        vec2(5.446289, 4.633789),
        vec2(5.7421875, 5.5234375),
        vec2(5.932617, 6.635742),
        vec2(6.0, 8.0),
    ];

    assert_eq!(points, &expected_points);
}

#[test]
fn path_geometry_circle() {
    let mut output = <Vec<Point>>::new();

    let mut path = PathBuilder::default();
    path.circle(vec2(0.0, 0.0), fx(5.0));

    let mut geo_build = PathGeometryBuilder::new(path.path_events()).with_segments(16);

    let range = geo_build.next(&mut output).expect("no contours found").1;
    let points = &output[range];

    // The points in coordinate units, exactly.
    let exact: Vec<Point> = [
        (-1280, 0),
        (-1273, -131),
        (-1254, -258),
        (-1222, -380),
        (-1179, -498),
        (-1125, -610),
        (-1061, -715),
        (-987, -814),
        (-905, -905),
        (-814, -987),
        (-715, -1061),
        (-610, -1125),
        (-498, -1179),
        (-380, -1222),
        (-258, -1254),
        (-131, -1273),
        (0, -1280),
        (131, -1273),
        (258, -1254),
        (380, -1222),
        (498, -1179),
        (610, -1125),
        (715, -1061),
        (814, -987),
        (905, -905),
        (987, -814),
        (1061, -715),
        (1125, -610),
        (1179, -498),
        (1222, -380),
        (1254, -258),
        (1273, -131),
        (1280, 0),
        (1273, 131),
        (1254, 258),
        (1222, 380),
        (1179, 498),
        (1125, 610),
        (1061, 715),
        (987, 814),
        (905, 905),
        (814, 987),
        (715, 1061),
        (610, 1125),
        (498, 1179),
        (380, 1222),
        (258, 1254),
        (131, 1273),
        (0, 1280),
        (-131, 1273),
        (-258, 1254),
        (-380, 1222),
        (-498, 1179),
        (-610, 1125),
        (-715, 1061),
        (-814, 987),
        (-905, 905),
        (-987, 814),
        (-1061, 715),
        (-1125, 610),
        (-1179, 498),
        (-1222, 380),
        (-1254, 258),
        (-1273, 131),
        (-1280, 0),
    ]
    .iter()
    .map(|&(x, y)| Point::new(x, y))
    .collect();
    assert_eq!(points, &exact[..]);

    // The same points in pixels. The control points of the circle are
    // themselves rounded to the coordinate grid, so a sample may sit one unit
    // off the unrounded curve.
    assert_close(
        points,
        &[
            vec2(-5.0, 0.0),
            vec2(-4.9741654, -0.51091635),
            vec2(-4.898342, -1.0071437),
            vec2(-4.7750516, -1.4861608),
            vec2(-4.6068153, -1.9454459),
            vec2(-4.396155, -2.3824778),
            vec2(-4.1455913, -2.7947354),
            vec2(-3.857646, -3.1796968),
            vec2(-3.5348408, -3.5348408),
            vec2(-3.1796968, -3.857646),
            vec2(-2.7947354, -4.1455913),
            vec2(-2.3824778, -4.396155),
            vec2(-1.9454459, -4.6068153),
            vec2(-1.4861608, -4.7750516),
            vec2(-1.0071437, -4.898342),
            vec2(-0.51091635, -4.9741654),
            vec2(0.0, -5.0),
            vec2(0.51091635, -4.9741654),
            vec2(1.0071437, -4.898342),
            vec2(1.4861608, -4.7750516),
            vec2(1.9454459, -4.6068153),
            vec2(2.3824778, -4.396155),
            vec2(2.7947354, -4.1455913),
            vec2(3.1796968, -3.857646),
            vec2(3.5348408, -3.5348408),
            vec2(3.857646, -3.1796968),
            vec2(4.1455913, -2.7947354),
            vec2(4.396155, -2.3824778),
            vec2(4.6068153, -1.9454459),
            vec2(4.7750516, -1.4861608),
            vec2(4.898342, -1.0071437),
            vec2(4.9741654, -0.51091635),
            vec2(5.0, 0.0),
            vec2(4.9741654, 0.51091635),
            vec2(4.898342, 1.0071437),
            vec2(4.7750516, 1.4861608),
            vec2(4.6068153, 1.9454459),
            vec2(4.396155, 2.3824778),
            vec2(4.1455913, 2.7947354),
            vec2(3.857646, 3.1796968),
            vec2(3.5348408, 3.5348408),
            vec2(3.1796968, 3.857646),
            vec2(2.7947354, 4.1455913),
            vec2(2.3824778, 4.396155),
            vec2(1.9454459, 4.6068153),
            vec2(1.4861608, 4.7750516),
            vec2(1.0071437, 4.898342),
            vec2(0.51091635, 4.9741654),
            vec2(0.0, 5.0),
            vec2(-0.51091635, 4.9741654),
            vec2(-1.0071437, 4.898342),
            vec2(-1.4861608, 4.7750516),
            vec2(-1.9454459, 4.6068153),
            vec2(-2.3824778, 4.396155),
            vec2(-2.7947354, 4.1455913),
            vec2(-3.1796968, 3.857646),
            vec2(-3.5348408, 3.5348408),
            vec2(-3.857646, 3.1796968),
            vec2(-4.1455913, 2.7947354),
            vec2(-4.396155, 2.3824778),
            vec2(-4.6068153, 1.9454459),
            vec2(-4.7750516, 1.4861608),
            vec2(-4.898342, 1.0071437),
            vec2(-4.9741654, 0.51091635),
            vec2(-5.0, 0.0),
        ]
    );
}
#[test]
fn path_geometry_round_rect() {
    let mut output = <Vec<Point>>::new();

    let mut path = PathBuilder::default();

    path.round_rect(
        &Rect::xywh(fx(10.0), fx(10.0), fx(100.0), fx(100.0)),
        &Corners::with_all(fx(20.0)),
    );

    let mut geo_build = PathGeometryBuilder::new(path.path_events()).with_segments(16);

    let range = geo_build.next(&mut output).expect("no contours found").1;
    let points = &output[range];

    assert_eq!(
        points,
        &[
            vec2(10.0, 30.0),
            vec2(10.103339, 27.956335),
            vec2(10.406632, 25.971424),
            vec2(10.899794, 24.055357),
            vec2(11.572739, 22.218216),
            vec2(12.4153805, 20.470089),
            vec2(13.417635, 18.821058),
            vec2(14.569416, 17.281212),
            vec2(15.860637, 15.860637),
            vec2(17.281212, 14.569416),
            vec2(18.821058, 13.417635),
            vec2(20.470089, 12.4153805),
            vec2(22.218216, 11.572739),
            vec2(24.055357, 10.899794),
            vec2(25.971424, 10.406632),
            vec2(27.956335, 10.103339),
            vec2(30.0, 10.0),
            vec2(90.0, 10.0),
            vec2(92.04366, 10.103339),
            vec2(94.02857, 10.406632),
            vec2(95.94464, 10.899794),
            vec2(97.781784, 11.572739),
            vec2(99.52991, 12.4153805),
            vec2(101.17894, 13.417635),
            vec2(102.71878, 14.569416),
            vec2(104.13936, 15.860637),
            vec2(105.43059, 17.281212),
            vec2(106.58237, 18.821058),
            vec2(107.58462, 20.470089),
            vec2(108.42726, 22.218216),
            vec2(109.100204, 24.055357),
            vec2(109.59337, 25.971424),
            vec2(109.89666, 27.956335),
            vec2(110.0, 30.0),
            vec2(110.0, 90.0),
            vec2(109.89666, 92.04366),
            vec2(109.59337, 94.02857),
            vec2(109.100204, 95.94464),
            vec2(108.42726, 97.781784),
            vec2(107.58462, 99.52991),
            vec2(106.58237, 101.17894),
            vec2(105.43059, 102.71878),
            vec2(104.13936, 104.13936),
            vec2(102.71878, 105.43059),
            vec2(101.17894, 106.58237),
            vec2(99.52991, 107.58462),
            vec2(97.781784, 108.42726),
            vec2(95.94464, 109.100204),
            vec2(94.02857, 109.59337),
            vec2(92.04366, 109.89666),
            vec2(90.0, 110.0),
            vec2(30.0, 110.0),
            vec2(27.956335, 109.89666),
            vec2(25.971424, 109.59337),
            vec2(24.055357, 109.100204),
            vec2(22.218216, 108.42726),
            vec2(20.470089, 107.58462),
            vec2(18.821058, 106.58237),
            vec2(17.281212, 105.43059),
            vec2(15.860637, 104.13936),
            vec2(14.569416, 102.71878),
            vec2(13.417635, 101.17894),
            vec2(12.4153805, 99.52991),
            vec2(11.572739, 97.781784),
            vec2(10.899794, 95.94464),
            vec2(10.406632, 94.02857),
            vec2(10.103339, 92.04366),
            vec2(10.0, 90.0),
            vec2(10.0, 30.0),
        ]
    );
}

#[test]
fn path_geometry_subpath_begins_with_its_own_first_point() {
    let mut output = <Vec<Point>>::new();
    let mut p = PathBuilder::default();
    p.begin(vec2(0.0, 0.0));
    p.line_to(vec2(10.0, 0.0));
    p.end(false);
    // The second subpath begins where the first ended.
    p.begin(vec2(10.0, 0.0));
    p.line_to(vec2(10.0, 10.0));
    p.line_to(vec2(0.0, 10.0));
    p.end(true);

    let mut g = PathGeometryBuilder::new(p.path_events());
    assert_eq!(g.next(&mut output), Some((Contour(2), 0..2)));
    assert_eq!(g.next(&mut output), Some((Contour(6), 2..6)));
    assert_eq!(
        &output[2..6],
        &[vec2(10.0, 0.0), vec2(10.0, 10.0), vec2(0.0, 10.0), vec2(10.0, 0.0)]
    );
    assert_eq!(g.next(&mut output), None);

    // Within a subpath an edge without length is still left out.
    let mut output = <Vec<Point>>::new();
    let mut p = PathBuilder::default();
    p.begin(vec2(1.0, 1.0));
    p.line_to(vec2(1.0, 1.0));
    p.line_to(vec2(2.0, 1.0));
    p.line_to(vec2(2.0, 1.0));
    p.line_to(vec2(1.0, 1.0));
    p.end(true);
    let mut g = PathGeometryBuilder::new(p.path_events());
    let range = g.next(&mut output).expect("no contour").1;
    assert_eq!(&output[range], &[vec2(1.0, 1.0), vec2(2.0, 1.0), vec2(1.0, 1.0)]);
}
