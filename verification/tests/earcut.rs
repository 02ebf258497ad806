use ara::earcut::check_holes;
use ara::earcut::deviation;
use ara::earcut::holes::sort_queue;
use ara::earcut::holes::QueuedHole;
use ara::earcut::ring::signed_area;
use ara::earcut::zorder::sort_linked;
use ara::earcut::zorder::z_order;
use ara::earcut::Node;
use ara::earcut::Earcut;
use ara::path::Point;

fn pts(coords: &[(i32, i32)]) -> Vec<Point> {
    coords.iter().map(|&(x, y)| Point::new(x, y)).collect()
}

/// Twice the area of triangle `t` of `triangles`.
fn doubled_area(data: &[Point], triangles: &[u32], t: usize) -> i64 {
    let a = data[triangles[3 * t] as usize];
    let b = data[triangles[3 * t + 1] as usize];
    let c = data[triangles[3 * t + 2] as usize];
    let cross = (a.x as i64 - c.x as i64) * (b.y as i64 - a.y as i64)
        - (a.x as i64 - b.x as i64) * (c.y as i64 - a.y as i64);
    cross.abs()
}

#[test]
fn earcut_triangle_gives_one_triangle() {
    let data = pts(&[(0, 0), (100, 0), (100, 100)]);
    let mut earcut = Earcut::new();
    let mut triangles: Vec<u32> = Vec::new();
    assert!(earcut.earcut(&data, &[] as &[u32], &mut triangles, true));
    assert_eq!(triangles.len(), 3);
    let mut sorted = triangles.clone();
    sorted.sort();
    assert_eq!(sorted, vec![0, 1, 2]);
}

#[test]
fn earcut_triangle_either_winding() {
    let mut earcut = Earcut::new();
    let mut triangles: Vec<u32> = Vec::new();
    // The shoelace sum of this order is positive: the ring is linked as given.
    assert!(earcut.earcut(&pts(&[(0, 0), (100, 0), (100, 100)]), &[] as &[u32], &mut triangles, true));
    assert_eq!(triangles, vec![1, 2, 0]);
    // And of this order negative: the ring is linked backwards.
    assert!(earcut.earcut(&pts(&[(0, 0), (100, 100), (100, 0)]), &[] as &[u32], &mut triangles, true));
    assert_eq!(triangles, vec![1, 0, 2]);
}

#[test]
fn earcut_square_gives_two_triangles_of_its_area() {
    let data = pts(&[(10, 10), (110, 10), (110, 110), (10, 110)]);
    let mut earcut = Earcut::new();
    let mut triangles: Vec<u32> = Vec::new();
    assert!(earcut.earcut(&data, &[] as &[u32], &mut triangles, true));
    assert_eq!(triangles.len(), 6);
    let sum = doubled_area(&data, &triangles, 0) + doubled_area(&data, &triangles, 1);
    assert_eq!(sum, 2 * 100 * 100);
}

#[test]
fn earcut_rectangles_in_every_order() {
    // From every corner, in both directions: two triangles that cover the
    // rectangle, the first at the last point, the second at the second.
    let corners = [(0, 0), (30, 0), (30, 20), (0, 20)];
    for start in 0..4 {
        for reversed in [false, true] {
            let order: Vec<(i32, i32)> = (0..4)
                .map(|k| {
                    let step = if reversed { 4 - k } else { k };
                    corners[(start + step) % 4]
                })
                .collect();
            let data = pts(&order);
            let mut earcut = Earcut::new();
            let mut triangles: Vec<u32> = Vec::new();
            assert!(earcut.earcut(&data, &[] as &[u32], &mut triangles, true));
            assert!(triangles == vec![2, 3, 0, 0, 1, 2] || triangles == vec![1, 0, 3, 3, 2, 1]);
            let sum = doubled_area(&data, &triangles, 0) + doubled_area(&data, &triangles, 1);
            assert_eq!(sum, 2 * 30 * 20);
            let (difference, area) = deviation(&data, &[] as &[u32], &triangles);
            assert_eq!((difference, area), (0, 2 * 30 * 20));
        }
    }
}

#[test]
fn earcut_polygon_with_hole_has_no_deviation() {
    // A square of side 100 with a square hole of side 20 in it.
    let data = pts(&[
        (0, 0),
        (100, 0),
        (100, 100),
        (0, 100),
        (40, 40),
        (60, 40),
        (60, 60),
        (40, 60),
    ]);
    let holes: Vec<u32> = vec![4];
    let mut earcut = Earcut::new();
    let mut triangles: Vec<u32> = Vec::new();
    assert!(earcut.earcut(&data, &holes, &mut triangles, true));
    assert_eq!(triangles.len() % 3, 0);
    assert_eq!(triangles.len(), 8 * 3);
    let (difference, area) = deviation(&data, &holes, &triangles);
    // The deviation is taken over the area of the outer ring.
    assert_eq!(area, 2 * 100 * 100);
    assert_eq!(difference, 0);
    let ratio = difference as f64 / area as f64;
    assert!(ratio < 1e-4);
}

#[test]
fn earcut_two_holes() {
    let data = pts(&[
        (0, 0),
        (300, 0),
        (300, 100),
        (0, 100),
        (20, 20),
        (40, 20),
        (40, 80),
        (20, 80),
        (200, 30),
        (260, 30),
        (230, 70),
    ]);
    let holes: Vec<usize> = vec![4, 8];
    let mut earcut = Earcut::new();
    let mut triangles: Vec<usize> = Vec::new();
    assert!(earcut.earcut(&data, &holes, &mut triangles, true));
    let (difference, area) = deviation(&data, &holes, &triangles);
    assert_eq!(area, 2 * 300 * 100);
    assert_eq!(difference, 0);
    assert!(triangles.iter().all(|&i| i < data.len()));
}

#[test]
fn earcut_concave_polygon() {
    // An L shape.
    let data = pts(&[(0, 0), (200, 0), (200, 100), (100, 100), (100, 200), (0, 200)]);
    let mut earcut = Earcut::new();
    let mut triangles: Vec<u16> = Vec::new();
    assert!(earcut.earcut(&data, &[] as &[u16], &mut triangles, true));
    assert_eq!(triangles.len(), 4 * 3);
    let (difference, area) = deviation(&data, &[] as &[u16], &triangles);
    assert_eq!(area, 2 * 30000);
    assert_eq!(difference, 0);
}

#[test]
fn earcut_many_points_uses_the_z_order_index() {
    // A comb with 60 teeth: 242 points, well over the threshold.
    let mut coords: Vec<(i32, i32)> = Vec::new();
    coords.push((0, 0));
    for tooth in 0..60 {
        let x = tooth * 20;
        coords.push((x, 100));
        coords.push((x + 5, 300));
        coords.push((x + 10, 100));
        coords.push((x + 20, 100));
    }
    coords.push((1200, 0));
    let data = pts(&coords);
    assert!(data.len() > 80);
    let mut earcut = Earcut::new();
    let mut triangles: Vec<u32> = Vec::new();
    assert!(earcut.earcut(&data, &[] as &[u32], &mut triangles, true));
    assert!(triangles.iter().all(|&i| (i as usize) < data.len()));
    let (difference, area) = deviation(&data, &[] as &[u32], &triangles);
    assert_eq!(area, 2 * 1200 * 100 + 60 * 10 * 200);
    assert_eq!(difference, 0);
}

#[test]
fn earcut_too_few_points() {
    let mut earcut = Earcut::new();
    let mut triangles: Vec<u32> = vec![7, 8, 9];
    assert!(!earcut.earcut(&pts(&[(0, 0), (10, 10)]), &[] as &[u32], &mut triangles, false));
    assert_eq!(triangles, vec![7, 8, 9]);
    assert!(!earcut.earcut(&pts(&[]), &[] as &[u32], &mut triangles, true));
    assert!(triangles.is_empty());
}

#[test]
fn earcut_points_on_one_line_give_no_triangle() {
    let mut earcut = Earcut::new();
    let mut triangles: Vec<u32> = Vec::new();
    assert!(earcut.earcut(&pts(&[(0, 0), (10, 10), (20, 20)]), &[] as &[u32], &mut triangles, true));
    assert!(triangles.is_empty());
}

#[test]
fn earcut_appends_behind_what_is_there() {
    let mut earcut = Earcut::new();
    let mut triangles: Vec<u32> = vec![5, 5, 5];
    assert!(earcut.earcut(&pts(&[(0, 0), (0, 10), (10, 0)]), &[] as &[u32], &mut triangles, false));
    assert_eq!(triangles.len(), 6);
    assert_eq!(&triangles[..3], &[5, 5, 5]);
}

#[test]
fn earcut_closing_duplicate_is_dropped() {
    // The last point repeats the first: four points, one triangle.
    let data = pts(&[(0, 0), (100, 0), (100, 100), (0, 0)]);
    let mut earcut = Earcut::new();
    let mut triangles: Vec<u32> = Vec::new();
    assert!(earcut.earcut(&data, &[] as &[u32], &mut triangles, true));
    assert_eq!(triangles.len(), 3);
}

#[test]
fn earcut_self_touching_polygon_terminates() {
    // A bow tie: the fallbacks are walked through and the call returns.
    let data = pts(&[(0, 0), (100, 100), (100, 0), (0, 100)]);
    let mut earcut = Earcut::new();
    let mut triangles: Vec<u32> = Vec::new();
    assert!(earcut.earcut(&data, &[] as &[u32], &mut triangles, true));
    assert_eq!(triangles.len() % 3, 0);
    assert!(triangles.iter().all(|&i| (i as usize) < data.len()));
}

#[test]
fn z_order_interleaves_the_scaled_coordinates() {
    // The corners of the box scale to 0 and 32767; x takes the even bits.
    assert_eq!(z_order(0, 0, 0, 0, 100), 0);
    assert_eq!(z_order(100, 0, 0, 0, 100), 0x1555_5555);
    assert_eq!(z_order(0, 100, 0, 0, 100), 0x2aaa_aaaa);
    assert_eq!(z_order(100, 100, 0, 0, 100), 0x3fff_ffff);
    // 1 * 32767 / 32767 = 1 and 2 * 32767 / 32767 = 2: bits 0 and 3.
    assert_eq!(z_order(1, 2, 0, 0, 32767), 0b1001);
    // Points off the box count as its ends.
    assert_eq!(z_order(-5, 200, 0, 0, 100), 0x2aaa_aaaa);
}

#[test]
fn signed_area_is_the_doubled_shoelace_sum() {
    let square = pts(&[(0, 0), (10, 0), (10, 10), (0, 10)]);
    assert_eq!(signed_area(&square, 0, 4), 200);
    let turned = pts(&[(0, 10), (10, 10), (10, 0), (0, 0)]);
    assert_eq!(signed_area(&turned, 0, 4), -200);
    assert_eq!(signed_area(&square, 1, 1), 0);
}

#[test]
fn waiting_holes_are_sorted_by_x_and_keep_their_order() {
    let mut queue = vec![
        QueuedHole { node: 1, x: 30 },
        QueuedHole { node: 2, x: 10 },
        QueuedHole { node: 3, x: 30 },
        QueuedHole { node: 4, x: -5 },
        QueuedHole { node: 5, x: 10 },
    ];
    sort_queue(&mut queue);
    let order: Vec<(usize, i32)> = queue.iter().map(|h| (h.node, h.x)).collect();
    assert_eq!(order, vec![(4, -5), (2, 10), (5, 10), (1, 30), (3, 30)]);
}

#[test]
fn deviation_is_taken_over_the_outer_ring() {
    // A square of side 10 with a square hole of side 6, and one triangle
    // that covers half of the square: |100 - 36 - 50| / 100.
    let data = pts(&[(0, 0), (10, 0), (10, 10), (0, 10), (2, 2), (8, 2), (8, 8), (2, 8)]);
    let holes: Vec<u32> = vec![4];
    let triangles: Vec<u32> = vec![0, 1, 2];
    let (difference, area) = deviation(&data, &holes, &triangles);
    assert_eq!((difference, area), (2 * 14, 2 * 100));
    assert_eq!(difference as f64 / area as f64, 0.14);
    // Without triangles the polygon's whole area is missing.
    let none: Vec<u32> = Vec::new();
    assert_eq!(deviation(&data, &holes, &none), (2 * 64, 2 * 100));
    // Fewer than three points enclose nothing.
    let two = pts(&[(0, 0), (10, 0)]);
    assert_eq!(deviation(&two, &none, &none), (0, 0));
}

#[test]
fn earcut_of_too_few_points_reads_no_hole_index() {
    let mut earcut = Earcut::new();
    let mut triangles: Vec<u32> = vec![7, 8, 9];
    // The hole indices neither ascend nor lie among the points.
    let holes: Vec<u32> = vec![9, 0, 3];
    assert!(!earcut.earcut(&pts(&[(0, 0), (1, 0)]), &holes, &mut triangles, false));
    assert_eq!(triangles, vec![7, 8, 9]);
    assert!(!earcut.earcut(&pts(&[(0, 0)]), &holes, &mut triangles, false));
    assert!(!earcut.earcut(&[], &holes, &mut triangles, true));
    assert!(triangles.is_empty());
}

#[test]
fn hole_indices_are_checked() {
    let none: [u32; 0] = [];
    assert!(check_holes(&none, 0));
    assert!(check_holes(&[4u32], 8));
    assert!(check_holes(&[4u32, 4, 8], 8));
    assert!(check_holes(&[1usize, 2, 3], 3));
    // Out of order, at the outer ring's first point, and behind the points.
    assert!(!check_holes(&[5u32, 4], 8));
    assert!(!check_holes(&[0u32], 8));
    assert!(!check_holes(&[4u16, 9], 8));
    assert!(!check_holes(&[1u32], 0));
}

#[test]
fn z_order_list_is_sorted_and_keeps_its_nodes() {
    // The sentinel, and behind it a list in the order of the arena.
    let zs = [0, 5, 3, 9, 3, 1, 7, 3, 0, 8];
    for count in 1..zs.len() {
        let mut nodes: Vec<Node> = (0..=count)
            .map(|k| Node {
                i: 0,
                z: zs[k],
                x: 0,
                y: 0,
                prev: 1,
                next: 1,
                prev_z: if k > 1 { k - 1 } else { 0 },
                next_z: if k >= 1 && k < count { k + 1 } else { 0 },
                steiner: false,
            })
            .collect();
        sort_linked(&mut nodes, 1, 1);
        // The head is the node without a node before it.
        let heads: Vec<usize> = (1..=count).filter(|&k| nodes[k].prev_z == 0).collect();
        assert_eq!(heads.len(), 1);
        let mut order = vec![heads[0]];
        while nodes[*order.last().unwrap()].next_z != 0 {
            let next = nodes[*order.last().unwrap()].next_z;
            assert_eq!(nodes[next].prev_z, *order.last().unwrap());
            order.push(next);
            assert!(order.len() <= count);
        }
        // The same nodes, in the order of z; equal z values in the old order.
        let mut expected: Vec<usize> = (1..=count).collect();
        expected.sort_by_key(|&k| zs[k]);
        assert_eq!(order, expected);
        assert!((1..=count).all(|k| nodes[k].z == zs[k]));
    }
}
