use palcalc::colorcalc::{ColorCalc, ColorData, QuantizeError};
use palcalc::colors::{Color, SCALE};
use palcalc::rng::Rng64;

const S: u32 = SCALE;

fn hist_of(pixels: Vec<(u8, u8, u8)>) -> ColorData {
    let mut h = ColorData::new();
    h.add(&pixels);
    h
}

fn calc_of(k: i32, pixels: Vec<(u8, u8, u8)>) -> ColorCalc {
    ColorCalc::new(k, hist_of(pixels), ColorData::new())
}

fn dist2(a: Color, b: Color) -> u128 {
    let d = |x: u32, y: u32| {
        let v = if x >= y { x - y } else { y - x } as u128;
        v * v
    };
    d(a.r, b.r) + d(a.g, b.g) + d(a.b, b.b)
}

#[test]
fn resolve_clamps_low_and_high() {
    // three distinct colors
    let px = vec![(1u8, 2u8, 3u8), (4, 5, 6), (7, 8, 9)];
    let c = calc_of(0, px.clone());
    assert_eq!(c.unique_colors, 3);
    assert_eq!(c.palette().len(), 1);
    let c = calc_of(-7, px.clone());
    assert_eq!(c.palette().len(), 1);
    let c = calc_of(2, px.clone());
    assert_eq!(c.palette().len(), 2);
    let c = calc_of(300, px.clone());
    // 300 clamps to 256, then down to the three distinct colors
    assert_eq!(c.palette().len(), 3);
}

#[test]
fn histogram_accumulates_weights() {
    let mut h = ColorData::new();
    h.add(&vec![(1, 2, 3), (1, 2, 3), (0, 0, 5)]);
    h.add(&vec![(1, 2, 3), (0, 0, 5)]);
    let c = ColorCalc::new(2, h, ColorData::new());
    assert_eq!(c.unique_colors, 2);
    // scan order: red varies slowest, so (0,0,5) comes first
    assert_eq!(c.point(0).color, Color::new(0, 0, 5));
    assert_eq!(c.point(0).count, 2);
    assert_eq!(c.point(1).color, Color::new(1, 2, 3));
    assert_eq!(c.point(1).count, 3);
}

#[test]
fn fixed_histogram_is_counted() {
    let adj = hist_of(vec![(9, 9, 9)]);
    let fixed = hist_of(vec![(1, 1, 1), (2, 2, 2), (2, 2, 2)]);
    let c = ColorCalc::new(4, adj, fixed);
    assert_eq!(c.unique_colors, 1);
    assert_eq!(c.fixed_colors, 2);
}

#[test]
fn assignment_picks_nearest_centroid() {
    let px = vec![(255, 0, 0), (0, 255, 0), (0, 0, 255), (10, 10, 10), (200, 30, 30)];
    let mut c = calc_of(3, px);
    let mut rng = Rng64::new(11);
    c.init_centroids(&mut rng);
    c.calc_segments();
    let pal = c.palette().clone();
    for i in 0..c.point_count() {
        let p = c.point(i);
        assert!(p.segment < pal.len());
        let d = dist2(p.color, pal[p.segment]);
        for j in 0..pal.len() {
            assert!(d <= dist2(p.color, pal[j]));
        }
    }
}

#[test]
fn recomputation_stays_in_range() {
    let px = vec![(255, 255, 255), (0, 0, 0), (128, 3, 250), (17, 230, 99)];
    let mut c = calc_of(2, px);
    let mut rng = Rng64::new(5);
    c.init_centroids(&mut rng);
    c.calc_segments();
    c.calc_centroids();
    for col in c.palette().iter() {
        assert!(col.r <= S && col.g <= S && col.b <= S);
    }
}

#[test]
fn assignment_twice_moves_nothing() {
    let px = vec![(255, 0, 0), (0, 255, 0), (0, 0, 255), (40, 40, 40), (200, 200, 0)];
    let mut c = calc_of(2, px);
    let mut rng = Rng64::new(3);
    c.init_centroids(&mut rng);
    c.calc_segments();
    c.calc_segments();
    assert_eq!(c.points_moved(), 0);
}

#[test]
fn first_assignment_moves_points() {
    // with one centroid per distinct color, the first assignment must move
    // every point that was not already sitting in its own cluster
    let px = vec![(255, 0, 0), (255, 0, 0), (0, 255, 0), (0, 0, 255)];
    let mut c = calc_of(5, px);
    let mut rng = Rng64::new(7);
    c.init_centroids(&mut rng);
    c.calc_segments();
    assert!(c.points_moved() > 0);
}

#[test]
fn determinism_same_seed_same_result() {
    let px = vec![(255, 0, 0), (255, 0, 0), (0, 255, 0), (0, 0, 255), (9, 9, 9)];
    let mut c1 = calc_of(2, px.clone());
    let mut c2 = calc_of(2, px);
    let mut r1 = Rng64::new(99);
    let mut r2 = Rng64::new(99);
    let rep1 = c1.run(&mut r1).unwrap();
    let rep2 = c2.run(&mut r2).unwrap();
    assert_eq!(rep1, rep2);
    assert_eq!(c1.palette(), c2.palette());
}

#[test]
fn two_by_two_image_majority_color() {
    // a single 2x2 image: two red pixels, one green, one blue
    let px = vec![(255, 0, 0), (255, 0, 0), (0, 255, 0), (0, 0, 255)];
    let mut c = calc_of(2, px);
    assert_eq!(c.unique_colors, 3);
    assert_eq!(c.palette().len(), 2);
    let mut rng = Rng64::new(2);
    c.run(&mut rng).unwrap();
    let pal = c.palette();
    assert_eq!(pal.len(), 2);
    // the majority color survives as an exact centroid
    assert_eq!(pal[0], Color { r: S, g: 0, b: 0 });
    // the other centroid is the mean of green and blue
    assert_eq!(pal[1], Color { r: 0, g: S / 2, b: S / 2 });
}

#[test]
fn k_zero_single_centroid_is_weighted_mean() {
    let px = vec![(128, 128, 128), (128, 128, 128), (128, 128, 128), (128, 128, 128)];
    let mut c = calc_of(0, px);
    assert_eq!(c.palette().len(), 1);
    let mut rng = Rng64::new(42);
    let reports = c.run(&mut rng).unwrap();
    // the single centroid is the global weighted mean color
    assert_eq!(c.palette()[0], Color::new(128, 128, 128));
    // each attempt converges at its first step, with no recomputation
    assert_eq!(reports.len(), 5);
    assert_eq!(reports[0].step, 0);
    assert_eq!(reports[0].points_moved, 0);
    assert_eq!(reports[0].distance, 0);
    assert_eq!(reports[0].steps_estimated, 5000);
}

#[test]
fn k_above_unique_clamps_to_unique() {
    let px = vec![(255, 0, 0), (255, 0, 0), (0, 255, 0), (0, 0, 255)];
    let mut c = calc_of(5, px);
    assert_eq!(c.unique_colors, 3);
    assert_eq!(c.palette().len(), 3);
    let mut rng = Rng64::new(7);
    let reports = c.run(&mut rng).unwrap();
    // one centroid per distinct color, in some order
    let pal = c.palette();
    let red = Color { r: S, g: 0, b: 0 };
    let green = Color { r: 0, g: S, b: 0 };
    let blue = Color { r: 0, g: 0, b: S };
    assert!(pal.contains(&red));
    assert!(pal.contains(&green));
    assert!(pal.contains(&blue));
    // zero movement after the first recomputation: every attempt converges
    // at step 1 with distance 0
    for rep in reports.iter() {
        assert_eq!(rep.step, 1);
        assert_eq!(rep.distance, 0);
        assert_eq!(rep.points_moved, 0);
    }
}

#[test]
fn degenerate_input_is_an_error() {
    let mut c = ColorCalc::new(3, ColorData::new(), ColorData::new());
    assert_eq!(c.unique_colors, 0);
    let mut rng = Rng64::new(1);
    assert_eq!(c.run(&mut rng), Err(QuantizeError::DegenerateInput));
}

#[test]
fn run_reports_match_fixed_seed() {
    let px = vec![(255, 0, 0), (255, 0, 0), (0, 255, 0), (0, 0, 255)];
    let mut c = calc_of(2, px);
    let mut rng = Rng64::new(2);
    let reports = c.run(&mut rng).unwrap();
    assert_eq!(reports.len(), 5);
    assert_eq!(
        (reports[0].attempt, reports[0].step, reports[0].points_moved),
        (0, 1, 0)
    );
    assert_eq!(reports[0].distance, 11816942);
    assert_eq!((reports[0].steps_done, reports[0].steps_estimated), (1, 5000));
    assert_eq!(
        (reports[4].attempt, reports[4].step, reports[4].distance),
        (4, 1, 11816942)
    );
    assert_eq!((reports[4].steps_done, reports[4].steps_estimated), (4, 3));
}
