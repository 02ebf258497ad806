use ara::math::Corners;
use ara::math::Rect;
use ara::path::check_path_data;
use ara::path::Path;
use ara::path::PathVerb;
use ara::path::Point;
use ara::path::Polygon;

/// A length in pixels as coordinate units.
fn fx(v: f32) -> i32 {
    (v * 256.0).round() as i32
}

fn vec2(x: f32, y: f32) -> Point {
    Point::new(fx(x), fx(y))
}

#[test]
fn path_builder_basic_test() {
    // closed
    {
        let mut path = Path::builder();
        path.begin(vec2(0.0, 0.0));
        path.line_to(vec2(5.0, 5.0));
        path.line_to(vec2(10.0, 10.0));
        path.line_to(vec2(2.0, 10.0));
        path.close();

        assert_eq!(
            path.get_points(),
            &vec![
                vec2(0.0, 0.0),
                vec2(5.0, 5.0),
                vec2(10.0, 10.0),
                vec2(2.0, 10.0),
                vec2(0.0, 0.0)
            ]
        );

        assert_eq!(
            path.get_verbs(),
            &vec![
                PathVerb::Begin,
                PathVerb::LineTo,
                PathVerb::LineTo,
                PathVerb::LineTo,
                PathVerb::Close,
            ]
        );
    }

    // open
    {
        let mut path = Path::builder();
        path.begin(vec2(0.0, 0.0));
        path.line_to(vec2(5.0, 5.0));
        path.line_to(vec2(10.0, 10.0));
        path.line_to(vec2(2.0, 10.0));
        path.end(false);

        assert_eq!(
            path.get_points(),
            &vec![
                vec2(0.0, 0.0),
                vec2(5.0, 5.0),
                vec2(10.0, 10.0),
                vec2(2.0, 10.0)
            ]
        );

        assert_eq!(
            path.get_verbs(),
            &vec![
                PathVerb::Begin,
                PathVerb::LineTo,
                PathVerb::LineTo,
                PathVerb::LineTo,
                PathVerb::End,
            ]
        );
    }
}

#[test]
fn path_builder_quadratic_to() {
    let mut path = Path::builder();

    path.begin(vec2(0.0, 0.0));
    path.quadratic_to(vec2(5.0, 5.0), vec2(10.0, 0.0));
    assert_eq!(
        path.get_points(),
        &vec![vec2(0.0, 0.0), vec2(5.0, 5.0), vec2(10.0, 0.0)]
    );
    path.end(false);

    assert_eq!(
        path.get_verbs(),
        &vec![PathVerb::Begin, PathVerb::QuadraticTo, PathVerb::End]
    );
}

#[test]
fn path_builder_cubic_to() {
    let mut path = Path::builder();

    path.begin(vec2(0.0, 0.0));
    path.cubic_to(vec2(0.0, 5.0), vec2(10.0, 5.0), vec2(10.0, 0.0));
    assert_eq!(
        path.get_points(),
        &vec![
            vec2(0.0, 0.0),
            vec2(0.0, 5.0),
            vec2(10.0, 5.0),
            vec2(10.0, 0.0)
        ]
    );
    path.end(false);

    assert_eq!(
        path.get_verbs(),
        &vec![PathVerb::Begin, PathVerb::CubicTo, PathVerb::End]
    );
}

#[test]
fn path_builder_round_rect() {
    let mut path = Path::builder();
    path.round_rect(
        &Rect::xywh(fx(0.0), fx(0.0), fx(10.0), fx(10.0)),
        &Corners::with_all(fx(3.0)),
    );

    assert_eq!(
        path.get_points(),
        &vec![
            vec2(0.0, 3.0),
            vec2(0.0, 1.3442549),
            vec2(1.3442549, 0.0),
            vec2(3.0, 0.0),
            vec2(7.0, 0.0),
            vec2(8.6557455, 0.0),
            vec2(10.0, 1.3442549),
            vec2(10.0, 3.0),
            vec2(10.0, 7.0),
            vec2(10.0, 8.6557455),
            vec2(8.6557455, 10.0),
            vec2(7.0, 10.0),
            vec2(3.0, 10.0),
            vec2(1.3442549, 10.0),
            vec2(0.0, 8.6557455),
            vec2(0.0, 7.0),
            vec2(0.0, 3.0),
        ]
    );

    assert_eq!(
        path.get_verbs(),
        &vec![
            PathVerb::Begin,
            PathVerb::CubicTo,
            PathVerb::LineTo,
            PathVerb::CubicTo,
            PathVerb::LineTo,
            PathVerb::CubicTo,
            PathVerb::LineTo,
            PathVerb::CubicTo,
            PathVerb::Close,
        ]
    );
}

#[test]
fn path_builder_extend() {
    // Create the first path
    let mut path1 = Path::builder();
    path1.begin(vec2(0.0, 0.0));
    path1.line_to(vec2(10.0, 0.0));
    path1.line_to(vec2(10.0, 10.0));
    path1.end(true);

    // Create a second path to be used as source for events
    let mut path2 = Path::builder();
    path2.begin(vec2(20.0, 20.0));
    path2.line_to(vec2(30.0, 20.0));
    path2.quadratic_to(vec2(35.0, 25.0), vec2(30.0, 30.0));
    path2.cubic_to(vec2(25.0, 35.0), vec2(20.0, 35.0), vec2(20.0, 30.0));
    path2.end(true);

    // Create a third path and extend it with events from the first two
    let mut combined = Path::builder();
    combined.extend(&mut path1.path_events());
    combined.extend(&mut path2.path_events());

    let result = combined.build();

    // Expected points based on the operations
    let expected_points = vec![
        // First path
        vec2(0.0, 0.0),   // begin
        vec2(10.0, 0.0),  // line_to
        vec2(10.0, 10.0), // line_to
        vec2(0.0, 0.0),   // close
        // Second path
        vec2(20.0, 20.0), // begin
        vec2(30.0, 20.0), // line_to
        vec2(35.0, 25.0), // quadratic control point
        vec2(30.0, 30.0), // quadratic end point
        vec2(25.0, 35.0), // cubic control point 1
        vec2(20.0, 35.0), // cubic control point 2
        vec2(20.0, 30.0), // cubic end point
        vec2(20.0, 20.0), // close
    ];

    // Expected verbs
    let expected_verbs = vec![
        PathVerb::Begin,
        PathVerb::LineTo,
        PathVerb::LineTo,
        PathVerb::Close,
        PathVerb::Begin,
        PathVerb::LineTo,
        PathVerb::QuadraticTo,
        PathVerb::CubicTo,
        PathVerb::Close,
    ];

    assert_eq!(result.get_points().as_slice(), expected_points.as_slice());
    assert_eq!(result.get_verbs().as_slice(), expected_verbs.as_slice());
}

#[test]
fn path_builder_circle() {
    let mut path = Path::builder();
    path.circle(vec2(0.0, 0.0), fx(10.0));

    assert_eq!(
        path.get_points(),
        &vec![
            vec2(-10.0, 0.0),
            vec2(-10.0, -5.5191507),
            vec2(-5.5191507, -10.0),
            vec2(0.0, -10.0),
            vec2(5.5191507, -10.0),
            vec2(10.0, -5.5191507),
            vec2(10.0, 0.0),
            vec2(10.0, 5.5191507),
            vec2(5.5191507, 10.0),
            vec2(0.0, 10.0),
            vec2(-5.5191507, 10.0),
            vec2(-10.0, 5.5191507),
            vec2(-10.0, 0.0),
            vec2(-10.0, 0.0),
        ]
    );

    assert_eq!(
        path.get_verbs(),
        &vec![
            PathVerb::Begin,
            PathVerb::CubicTo,
            PathVerb::CubicTo,
            PathVerb::CubicTo,
            PathVerb::CubicTo,
            PathVerb::Close,
        ]
    );
}

#[test]
fn path_builder_rect() {
    let mut path = Path::builder();
    path.rect(&Rect::xywh(fx(10.0), fx(10.0), fx(100.0), fx(100.0)));

    assert_eq!(
        path.get_points(),
        &vec![
            vec2(10.0, 10.0),
            vec2(110.0, 10.0),
            vec2(110.0, 110.0),
            vec2(10.0, 110.0),
            vec2(10.0, 10.0),
        ]
    );

    assert_eq!(
        path.get_verbs(),
        &vec![
            PathVerb::Begin,
            PathVerb::LineTo,
            PathVerb::LineTo,
            PathVerb::LineTo,
            PathVerb::Close,
        ]
    );
}

#[test]
fn path_builder_polygon() {
    // closed
    {
        let mut path = Path::builder();
        path.polygon(Polygon {
            points: &[
                vec2(0.0, 0.0),
                vec2(10.0, 100.0),
                vec2(200.0, 300.0),
                vec2(500.0, 600.0),
            ],
            closed: true,
        });

        assert_eq!(
            path.get_points(),
            &vec![
                vec2(0.0, 0.0),
                vec2(10.0, 100.0),
                vec2(200.0, 300.0),
                vec2(500.0, 600.0),
                vec2(0.0, 0.0),
            ]
        );

        assert_eq!(
            path.get_verbs(),
            &vec![
                PathVerb::Begin,
                PathVerb::LineTo,
                PathVerb::LineTo,
                PathVerb::LineTo,
                PathVerb::Close,
            ]
        );
    }
    // open
    {
        let mut path = Path::builder();
        path.polygon(Polygon {
            points: &[
                vec2(0.0, 0.0),
                vec2(10.0, 100.0),
                vec2(200.0, 300.0),
                vec2(500.0, 600.0),
            ],
            closed: false,
        });
        assert_eq!(
            path.get_points(),
            &vec![
                vec2(0.0, 0.0),
                vec2(10.0, 100.0),
                vec2(200.0, 300.0),
                vec2(500.0, 600.0)
            ]
        );
        assert_eq!(
            path.get_verbs(),
            &vec![
                PathVerb::Begin,
                PathVerb::LineTo,
                PathVerb::LineTo,
                PathVerb::LineTo,
                PathVerb::End,
            ]
        );
    }
}

#[test]
fn path_data_is_checked() {
    let origin = Point::new(0, 0);
    let far = Point::new(i32::MAX, 0);
    let closed = vec![PathVerb::Begin, PathVerb::LineTo, PathVerb::Close];
    assert_eq!(check_path_data(&vec![origin, vec2(1.0, 1.0), origin], &closed), Some(false));
    // The closing point must repeat the first.
    assert_eq!(check_path_data(&vec![origin, vec2(1.0, 1.0), vec2(2.0, 2.0)], &closed), None);
    assert_eq!(check_path_data(&vec![origin, vec2(1.0, 1.0)], &closed), None);
    assert_eq!(check_path_data(&vec![origin, far, origin], &closed), None);
    assert_eq!(check_path_data(&vec![origin], &vec![PathVerb::Begin]), Some(true));
    assert_eq!(check_path_data(&vec![origin], &vec![PathVerb::LineTo]), None);
    assert_eq!(check_path_data(&vec![origin, origin], &vec![PathVerb::Begin, PathVerb::Begin]), None);
    assert_eq!(check_path_data(&vec![], &vec![PathVerb::End]), None);
    assert_eq!(check_path_data(&vec![], &vec![]), Some(false));
    assert_eq!(
        check_path_data(
            &vec![origin, origin, origin, origin, origin, origin],
            &vec![PathVerb::Begin, PathVerb::QuadraticTo, PathVerb::CubicTo, PathVerb::End]
        ),
        Some(false)
    );
    assert_eq!(
        check_path_data(&vec![origin, origin], &vec![PathVerb::Begin, PathVerb::End]),
        None
    );

    let mut builder = Path::builder();
    assert!(!builder.in_subpath());
    builder.begin(origin);
    assert!(builder.in_subpath());
    builder.end(false);
    assert!(builder.build().is_wf());
}

#[test]
fn path_builder_round_rect_rounds_each_corner_by_its_own_radius() {
    let rect = Rect::xywh(fx(0.0), fx(0.0), fx(10.0), fx(10.0));
    let corners = |tl: f32, tr: f32, br: f32, bl: f32| Corners {
        top_left: fx(tl),
        top_right: fx(tr),
        bottom_right: fx(br),
        bottom_left: fx(bl),
    };
    let line = PathVerb::LineTo;
    let arc = PathVerb::CubicTo;

    // Only the top-right corner is rounded.
    let mut path = Path::builder();
    path.round_rect(&rect, &corners(0.0, 3.0, 0.0, 0.0));
    assert_eq!(
        path.get_verbs(),
        &vec![PathVerb::Begin, line, arc, line, line, PathVerb::Close]
    );
    let points = path.get_points();
    assert_eq!(points[0], vec2(0.0, 0.0));
    // The top edge ends where the arc begins, and the arc ends on the right edge.
    assert_eq!(points[1], vec2(7.0, 0.0));
    assert_eq!(points[4], vec2(10.0, 3.0));
    assert_eq!(points[5], vec2(10.0, 10.0));
    assert_eq!(points[6], vec2(0.0, 10.0));
    assert_eq!(points[7], vec2(0.0, 0.0));
    assert_eq!(points.len(), 8);

    // Only the top-left corner is rounded.
    let mut path = Path::builder();
    path.round_rect(&rect, &corners(3.0, 0.0, 0.0, 0.0));
    assert_eq!(
        path.get_verbs(),
        &vec![PathVerb::Begin, arc, line, line, line, PathVerb::Close]
    );

    // Only the two bottom corners are rounded.
    let mut path = Path::builder();
    path.round_rect(&rect, &corners(0.0, 0.0, 2.0, 1.0));
    assert_eq!(
        path.get_verbs(),
        &vec![PathVerb::Begin, line, line, arc, line, arc, PathVerb::Close]
    );
}
