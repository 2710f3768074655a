use plyband::error::Error;
use plyband::swath::{extract, intersection, pixel_count, Frame, Swath, Window};
use plyband::transform::AffineTransform;
use plyband::types::{Point, RealF64};

fn w(x: f64) -> RealF64 {
    RealF64::new(x.to_bits())
}

fn at(x: f64, y: f64) -> Point {
    Point { x: w(x), y: w(y) }
}

fn transform(c: [f64; 6]) -> AffineTransform {
    AffineTransform::new(w(c[0]), w(c[1]), w(c[2]), w(c[3]), w(c[4]), w(c[5]))
}

fn forward(c: [f64; 6], col: isize, row: isize) -> Point {
    let (col, row) = (col as f64, row as f64);
    at(c[0] + col * c[1] + row * c[2], c[3] + col * c[4] + row * c[5])
}

fn backward(t: &AffineTransform, p: Point) -> Point {
    let v = |r: RealF64| f64::from_bits(r.bits);
    let (a, b, c, d, e, f) = (v(t.a), v(t.b), v(t.c), v(t.d), v(t.e), v(t.f));
    let det = b * f - c * e;
    let dx = v(p.x) - a;
    let dy = v(p.y) - d;
    at((dx * f - dy * c) / det, (dy * b - dx * e) / det)
}

fn grid(width: isize, height: isize, c: [f64; 6], projection: &str) -> Swath {
    Swath::new(
        width,
        height,
        transform(c),
        projection.to_string(),
        [
            forward(c, 0, 0),
            forward(c, width, 0),
            forward(c, width, height),
            forward(c, 0, height),
        ],
    )
}

fn combine(swaths: &Vec<Swath>) -> Result<Swath, Error> {
    let frame = intersection(swaths)?;
    let far_pixel = backward(&frame.transform, frame.far_corner);
    frame.complete(far_pixel)
}

fn three_grids() -> Vec<Swath> {
    vec![
        grid(100, 100, [0.0, 1.0, 0.0, 100.0, 0.0, -1.0], "EPSG:32610"),
        grid(100, 100, [5.0, 1.0, 0.0, 100.0, 0.0, -1.0], "EPSG:32610"),
        grid(100, 100, [0.0, 1.0, 0.0, 95.0, 0.0, -1.0], "EPSG:32610"),
    ]
}

#[test]
fn extremes_of_a_north_up_grid() {
    let g = grid(100, 50, [10.0, 2.0, 0.0, 300.0, 0.0, -2.0], "p");
    assert_eq!(g.left_extreme(), w(10.0));
    assert_eq!(g.right_extreme(), w(210.0));
    assert_eq!(g.bottom_extreme(), w(200.0));
    assert_eq!(g.top_extreme(), w(300.0));
}

#[test]
fn extremes_of_a_rotated_grid() {
    let g = grid(10, 10, [0.0, 1.0, 1.0, 0.0, 1.0, -1.0], "p");
    assert_eq!(g.left_extreme(), w(0.0));
    assert_eq!(g.right_extreme(), w(20.0));
    assert_eq!(g.bottom_extreme(), w(-10.0));
    assert_eq!(g.top_extreme(), w(10.0));
}

#[test]
fn extremes_look_at_every_corner() {
    let c = [at(3.0, 7.0), at(-4.0, 9.0), at(8.0, -2.0), at(1.0, 1.0)];
    for shift in 0..4 {
        let corners = [c[shift % 4], c[(shift + 1) % 4], c[(shift + 2) % 4], c[(shift + 3) % 4]];
        let g = Swath::new(
            1,
            1,
            transform([0.0, 1.0, 0.0, 0.0, 0.0, -1.0]),
            String::new(),
            corners,
        );
        assert_eq!(g.left_extreme(), w(-4.0));
        assert_eq!(g.right_extreme(), w(8.0));
        assert_eq!(g.bottom_extreme(), w(-2.0));
        assert_eq!(g.top_extreme(), w(9.0));
    }
}

#[test]
fn no_grids_is_empty_input() {
    assert_eq!(intersection(&Vec::new()), Err(Error::EmptyInput));
}

#[test]
fn worked_scenario_of_three_grids() {
    let frame = intersection(&three_grids()).unwrap();
    assert_eq!(frame.transform, transform([5.0, 1.0, 0.0, 95.0, 0.0, -1.0]));
    assert_eq!(frame.far_corner, at(100.0, 0.0));
    assert_eq!(frame.projection, "EPSG:32610");
    let out = combine(&three_grids()).unwrap();
    assert_eq!(out.width, 95);
    assert_eq!(out.height, 95);
    assert_eq!(out.transform, transform([5.0, 1.0, 0.0, 95.0, 0.0, -1.0]));
    assert_eq!(out.projection, "EPSG:32610");
    assert_eq!(out.left_extreme(), w(5.0));
    assert_eq!(out.right_extreme(), w(100.0));
    assert_eq!(out.bottom_extreme(), w(0.0));
    assert_eq!(out.top_extreme(), w(95.0));
    assert!(out.is_well_formed());
}

#[test]
fn one_grid_is_its_own_intersection() {
    let c = [431000.0, 30.0, 0.0, 5200000.0, 0.0, -30.0];
    let g = grid(640, 480, c, "utm");
    let out = combine(&vec![grid(640, 480, c, "utm")]).unwrap();
    assert_eq!(out.width, g.width);
    assert_eq!(out.height, g.height);
    assert_eq!(out.transform, g.transform);
    assert_eq!(out.projection, g.projection);
}

#[test]
fn order_of_grids_does_not_change_the_bounds() {
    let orders: [[usize; 3]; 6] =
        [[0, 1, 2], [0, 2, 1], [1, 0, 2], [1, 2, 0], [2, 0, 1], [2, 1, 0]];
    let reference = combine(&three_grids()).unwrap();
    for order in orders.iter() {
        let mut pool: Vec<Option<Swath>> = three_grids().into_iter().map(Some).collect();
        let list: Vec<Swath> = order.iter().map(|&k| pool[k].take().unwrap()).collect();
        let frame = intersection(&list).unwrap();
        assert_eq!(frame.far_corner, at(100.0, 0.0));
        assert_eq!(frame.transform.origin(), at(5.0, 95.0));
        let out = combine(&list).unwrap();
        assert_eq!(out.width, reference.width);
        assert_eq!(out.height, reference.height);
        assert_eq!(out.left_extreme(), reference.left_extreme());
        assert_eq!(out.right_extreme(), reference.right_extreme());
        assert_eq!(out.bottom_extreme(), reference.bottom_extreme());
        assert_eq!(out.top_extreme(), reference.top_extreme());
    }
}

#[test]
fn spacing_and_projection_come_from_the_first_grid() {
    let list = vec![
        grid(10, 10, [0.0, 2.0, 0.0, 20.0, 0.0, -2.0], "first"),
        grid(20, 20, [0.0, 1.0, 0.0, 20.0, 0.0, -1.0], "second"),
    ];
    let frame = intersection(&list).unwrap();
    assert_eq!(frame.transform, transform([0.0, 2.0, 0.0, 20.0, 0.0, -2.0]));
    assert_eq!(frame.projection, "first");
}

#[test]
fn grids_side_by_side_do_not_intersect() {
    let list = vec![
        grid(100, 100, [0.0, 1.0, 0.0, 100.0, 0.0, -1.0], "p"),
        grid(100, 100, [150.0, 1.0, 0.0, 100.0, 0.0, -1.0], "p"),
    ];
    assert_eq!(intersection(&list), Err(Error::NoIntersection));
    assert_eq!(combine(&list), Err(Error::NoIntersection));
}

#[test]
fn grids_one_above_the_other_do_not_intersect() {
    let list = vec![
        grid(100, 100, [0.0, 1.0, 0.0, 100.0, 0.0, -1.0], "p"),
        grid(100, 100, [0.0, 1.0, 0.0, 300.0, 0.0, -1.0], "p"),
        grid(100, 100, [0.0, 1.0, 0.0, 100.0, 0.0, -1.0], "p"),
    ];
    assert_eq!(intersection(&list), Err(Error::NoIntersection));
}

#[test]
fn grids_that_only_touch_have_no_pixels_in_common() {
    let list = vec![
        grid(100, 100, [0.0, 1.0, 0.0, 100.0, 0.0, -1.0], "p"),
        grid(100, 100, [100.0, 1.0, 0.0, 100.0, 0.0, -1.0], "p"),
    ];
    let frame = intersection(&list).unwrap();
    assert_eq!(frame.far_corner, at(100.0, 0.0));
    assert_eq!(frame.transform.origin(), at(100.0, 100.0));
    assert_eq!(combine(&list), Err(Error::NoIntersection));
}

#[test]
fn grids_that_touch_at_zero_fare_like_grids_that_touch_elsewhere() {
    let mut west = grid(100, 100, [-100.0, 1.0, 0.0, 100.0, 0.0, -1.0], "p");
    let mut east = grid(100, 100, [0.0, 1.0, 0.0, 100.0, 0.0, -1.0], "p");
    west.corners[1] = at(-0.0, 100.0);
    west.corners[2] = at(-0.0, 0.0);
    east.corners[0] = at(0.0, 100.0);
    east.corners[3] = at(0.0, 0.0);
    assert_eq!(west.right_extreme().bits, (-0.0f64).to_bits());
    assert_eq!(east.left_extreme().bits, 0.0f64.to_bits());
    let list = vec![west, east];
    let frame = intersection(&list).unwrap();
    assert_eq!(frame.far_corner, at(0.0, 0.0));
    assert_eq!(frame.transform.origin(), at(0.0, 100.0));
    assert_eq!(combine(&list), Err(Error::NoIntersection));
}

#[test]
fn a_pixel_size_of_either_sign_gives_a_count_of_that_sign() {
    let make = |b: f64, f: f64| Frame {
        transform: transform([10.0, b, 0.0, 50.0, 0.0, f]),
        far_corner: at(17.0, 41.0),
        projection: String::new(),
    };
    for (b, f, size) in [
        (2.0, -2.0, (4, 5)),
        (-2.0, -2.0, (-4, 5)),
        (2.0, 2.0, (4, -5)),
        (-2.0, 2.0, (-4, -5)),
    ] {
        let frame = make(b, f);
        let far_pixel = backward(&frame.transform, frame.far_corner);
        assert_eq!(far_pixel, at(7.0 / b, -9.0 / f));
        let out = frame.complete(far_pixel).unwrap();
        assert_eq!((out.width, out.height), size);
    }
}

#[test]
fn axis_aligned_size_is_the_span_over_the_pixel_size() {
    let list = vec![
        grid(40, 30, [10.0, 2.5, 0.0, 80.0, 0.0, -2.5], "p"),
        grid(40, 30, [22.0, 2.5, 0.0, 70.0, 0.0, -2.5], "p"),
    ];
    let frame = intersection(&list).unwrap();
    let (left, top) = (22.0f64, 70.0f64);
    let (right, bottom) = (110.0f64, 5.0f64);
    assert_eq!(frame.transform.origin(), at(left, top));
    assert_eq!(frame.far_corner, at(right, bottom));
    let out = combine(&list).unwrap();
    assert_eq!(out.width, w((right - left) / 2.5).round_away());
    assert_eq!(out.height, w((top - bottom) / 2.5).round_away());
    assert_eq!(out.width, 36);
    assert_eq!(out.height, 26);
}

#[test]
fn a_partly_covered_last_pixel_is_counted() {
    let frame = Frame {
        transform: transform([0.0, 1.0, 0.0, 10.0, 0.0, -1.0]),
        far_corner: at(4.25, 7.5),
        projection: "p".to_string(),
    };
    let far_pixel = backward(&frame.transform, frame.far_corner);
    assert_eq!(far_pixel, at(4.25, 2.5));
    let out = frame.complete(far_pixel).unwrap();
    assert_eq!((out.width, out.height), (5, 3));
    assert_eq!(out.corners, [at(0.0, 10.0), at(4.25, 10.0), at(4.25, 7.5), at(0.0, 7.5)]);
}

#[test]
fn rows_that_run_upwards_give_a_negative_height() {
    let frame = Frame {
        transform: transform([0.0, 1.0, 0.0, 10.0, 0.0, 1.0]),
        far_corner: at(4.0, 7.5),
        projection: String::new(),
    };
    let out = frame.complete(at(4.0, -2.5)).unwrap();
    assert_eq!((out.width, out.height), (4, -3));
}

#[test]
fn a_pixel_position_that_is_not_finite_is_a_singular_transform() {
    let make = || Frame {
        transform: transform([0.0, 0.0, 0.0, 10.0, 0.0, 0.0]),
        far_corner: at(4.0, 7.0),
        projection: String::new(),
    };
    let far_pixel = backward(&make().transform, make().far_corner);
    assert_eq!(make().complete(far_pixel), Err(Error::SingularTransform));
    assert_eq!(make().complete(at(f64::NAN, 1.0)), Err(Error::SingularTransform));
    assert_eq!(make().complete(at(1.0, f64::INFINITY)), Err(Error::SingularTransform));
    assert_eq!(make().complete(at(f64::NEG_INFINITY, 1.0)), Err(Error::SingularTransform));
}

#[test]
fn a_grid_without_width_or_height_is_no_intersection() {
    let make = || Frame {
        transform: transform([0.0, 1.0, 0.0, 10.0, 0.0, -1.0]),
        far_corner: at(0.0, 7.0),
        projection: String::new(),
    };
    assert_eq!(make().complete(at(0.0, 3.0)), Err(Error::NoIntersection));
    assert_eq!(make().complete(at(3.0, -0.0)), Err(Error::NoIntersection));
    assert!(make().complete(at(1.0e-9, 3.0)).is_ok());
}

#[test]
fn well_formedness_is_checked_field_by_field() {
    let c = [0.0, 1.0, 0.0, 10.0, 0.0, -1.0];
    assert!(grid(3, 4, c, "p").is_well_formed());
    assert!(!grid(0, 4, c, "p").is_well_formed());
    assert!(!grid(3, 0, c, "p").is_well_formed());
    assert!(!grid(3, 4, [0.0, f64::NAN, 0.0, 10.0, 0.0, -1.0], "p").is_well_formed());
    assert!(!grid(3, 4, [0.0, 1.0, 0.0, f64::INFINITY, 0.0, -1.0], "p").is_well_formed());
    let mut g = grid(3, 4, c, "p");
    g.corners[3] = at(0.0, f64::NAN);
    assert!(!g.is_well_formed());
    let mut g = grid(3, 4, c, "p");
    g.corners[0] = at(0.0, 10.5);
    assert!(!g.is_well_formed());
    let mut g = grid(3, 4, c, "p");
    g.corners[0] = at(-0.0, 10.0);
    assert!(g.is_well_formed());
}

#[test]
fn extract_reads_from_the_origin_of_the_swath() {
    let band = [0.0, 1.0, 0.0, 100.0, 0.0, -1.0];
    let out = combine(&three_grids()).unwrap();
    let origin_pixel = backward(&transform(band), out.transform.origin());
    assert_eq!(origin_pixel, at(5.0, 5.0));
    assert_eq!(
        extract(&out, &transform(band), origin_pixel),
        Ok(Window { offset: (5, 5), size: (95, 95) })
    );
}

#[test]
fn extract_cuts_the_offset_and_takes_the_magnitude_of_the_size() {
    let g = grid(-7, 9, [0.0, 1.0, 0.0, 10.0, 0.0, -1.0], "p");
    let band = transform([0.0, 1.0, 0.0, 10.0, 0.0, -1.0]);
    assert_eq!(extract(&g, &band, at(2.75, -3.5)), Ok(Window { offset: (2, -3), size: (7, 9) }));
    assert_eq!(extract(&g, &band, at(f64::NAN, 0.0)), Err(Error::SingularTransform));
    assert_eq!(extract(&g, &band, at(0.0, f64::INFINITY)), Err(Error::SingularTransform));
    let flat = transform([0.0, 1.0, 2.0, 10.0, 2.0, 4.0]);
    assert_eq!(extract(&g, &flat, at(2.0, 3.0)), Err(Error::SingularTransform));
}

#[test]
fn a_transform_is_invertible_unless_its_products_agree() {
    assert!(transform([0.0, 1.0, 0.0, 0.0, 0.0, -1.0]).is_invertible());
    assert!(transform([5.0, 30.0, 0.5, 7.0, 0.25, -30.0]).is_invertible());
    assert!(transform([0.0, 0.0, 1.0, 0.0, 1.0, 0.0]).is_invertible());
    assert!(!transform([0.0, 0.0, 0.0, 0.0, 0.0, 0.0]).is_invertible());
    assert!(!transform([0.0, 1.0, 0.0, 0.0, 0.0, 0.0]).is_invertible());
    assert!(!transform([0.0, 0.0, -0.0, 0.0, 3.0, 0.0]).is_invertible());
    assert!(!transform([0.0, 3.0, 15.0, 0.0, 1.0, 5.0]).is_invertible());
    assert!(!transform([0.0, -3.0, 15.0, 0.0, 1.0, -5.0]).is_invertible());
    assert!(transform([0.0, -3.0, 15.0, 0.0, 1.0, 5.0]).is_invertible());
    assert!(!transform([0.0, 0.1, 0.3, 0.0, 0.1, 0.3]).is_invertible());
    let up = 1.5 * 2.0f64.powi(1000);
    let down = 0.5 * 2.0f64.powi(-1000);
    assert!(!transform([0.0, 0.75, up, 0.0, down, 1.0]).is_invertible());
    assert!(transform([0.0, 0.75, up, 0.0, down, 1.0000000000000002]).is_invertible());
    let eight = f64::from_bits(8);
    let two = f64::from_bits(2);
    assert!(!transform([0.0, eight, two, 0.0, 8.0, 2.0]).is_invertible());
    assert!(transform([0.0, eight, two, 0.0, 8.0, 2.5]).is_invertible());
}

#[test]
fn invertibility_is_decided_without_rounding() {
    let tiny = transform([0.0, 1.0e-200, 0.0, 0.0, 0.0, 1.0e-200]);
    assert_eq!(1.0e-200f64 * 1.0e-200, 0.0);
    assert!(tiny.is_invertible());
    let above = 1.0 + f64::EPSILON;
    let below = 1.0 - f64::EPSILON;
    assert_eq!(above * below - 1.0 * 1.0, 0.0);
    assert!(transform([0.0, above, 1.0, 0.0, 1.0, below]).is_invertible());
    let huge = transform([0.0, 1.0e200, 1.0e200, 0.0, 1.0e200, 1.0e200]);
    assert!(!huge.is_invertible());
    assert!(transform([0.0, 1.0e200, 1.0e200, 0.0, 1.0e200, -1.0e200]).is_invertible());
}

#[test]
fn a_transform_that_is_not_finite_is_not_invertible() {
    for k in 0..6 {
        for bad in [f64::NAN, f64::INFINITY, f64::NEG_INFINITY] {
            let mut c = [1.0, 2.0, 0.0, 3.0, 0.0, -2.0];
            assert!(transform(c).is_invertible());
            c[k] = bad;
            assert!(!transform(c).is_invertible());
            assert!(!transform(c).finite());
        }
    }
}

#[test]
fn a_frame_on_a_singular_transform_cannot_be_completed() {
    let frame = Frame {
        transform: transform([0.0, 2.0, 4.0, 10.0, 1.0, 2.0]),
        far_corner: at(4.0, 7.0),
        projection: String::new(),
    };
    assert_eq!(frame.complete(at(3.0, 3.0)), Err(Error::SingularTransform));
}

#[test]
fn pixel_count_is_the_magnitude() {
    assert_eq!(pixel_count(0), 0);
    assert_eq!(pixel_count(95), 95);
    assert_eq!(pixel_count(-95), 95);
    assert_eq!(pixel_count(isize::MAX), isize::MAX as usize);
    assert_eq!(pixel_count(isize::MIN), isize::MAX as usize + 1);
}
