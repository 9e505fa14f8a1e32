// Exercises the optimizer end to end: the suggest/report protocol over a
// fixed-point domain.  Domain coordinates and values are i64 in units of
// one millionth, so the 2-D running example [(-10, 10), (-20, 20)] becomes
// [(-10_000_000, 10_000_000), (-20_000_000, 20_000_000)].

use simplers_optimization::algorithm::Optimizer;
use simplers_optimization::search_space::SearchSpace;
use simplers_optimization::simplex::Simplex;
use simplers_optimization::point::Point;

const M: i64 = 1_000_000;

fn bounds_2d() -> Vec<(i64, i64)> {
    vec![(-10 * M, 10 * M), (-20 * M, 20 * M)]
}

// f(x, y) = x * y in real units, taken and returned in millionth units.
fn f_xy(p: &[i64]) -> i64 {
    let x = p[0] as f64 / M as f64;
    let y = p[1] as f64 / M as f64;
    (x * y * M as f64).round() as i64
}

#[test]
fn bootstrap_suggestions_are_the_three_corners() {
    let bounds = bounds_2d();
    let mut opt = Optimizer::new(&bounds, true);
    let s1 = opt.next_explore_point();
    assert_eq!(s1, vec![-10 * M, -20 * M]);
    opt.next_with_value(f_xy(&s1));
    let s2 = opt.next_explore_point();
    assert_eq!(s2, vec![10 * M, -20 * M]);
    opt.next_with_value(f_xy(&s2));
    let s3 = opt.next_explore_point();
    assert_eq!(s3, vec![-10 * M, 20 * M]);
    assert!(s1 != s2 && s1 != s3 && s2 != s3);
}

#[test]
fn fourth_suggestion_is_the_mapped_centroid() {
    let bounds = bounds_2d();
    let mut opt = Optimizer::new(&bounds, true);
    for _ in 0..3 {
        let s = opt.next_explore_point();
        opt.next_with_value(f_xy(&s));
    }
    let s4 = opt.next_explore_point();
    // centroid of the initial simplex: (SCALE/3, SCALE/3) = (349525, 349525)
    // mapped: -10M + 20M * 349525 / 1048576 and -20M + 40M * 349525 / 1048576
    assert_eq!(s4, vec![-3_333_340, -6_666_680]);
}

#[test]
fn pending_suggestion_is_idempotent() {
    let bounds = bounds_2d();
    let mut opt = Optimizer::new(&bounds, true);
    // during bootstrap
    let a = opt.next_explore_point();
    let b = opt.next_explore_point();
    assert_eq!(a, b);
    for _ in 0..3 {
        let s = opt.next_explore_point();
        opt.next_with_value(f_xy(&s));
    }
    // in steady state
    let c = opt.next_explore_point();
    let d = opt.next_explore_point();
    assert_eq!(c, d);
}

#[test]
fn best_value_is_monotone_when_minimizing() {
    let bounds = bounds_2d();
    let mut opt = Optimizer::new(&bounds, true);
    for _ in 0..3 {
        let s = opt.next_explore_point();
        opt.next_with_value(f_xy(&s));
    }
    let mut last = i64::MAX;
    for _ in 0..30 {
        let s = opt.next_explore_point();
        let (best, _) = opt.next_with_value(f_xy(&s));
        assert!(best <= last);
        last = best;
    }
}

#[test]
fn best_matches_a_reported_point() {
    let bounds = bounds_2d();
    let mut opt = Optimizer::new(&bounds, true);
    let mut reported: Vec<(i64, Vec<i64>)> = Vec::new();
    let mut result = (0, Vec::new());
    for _ in 0..20 {
        let s = opt.next_explore_point();
        let v = f_xy(&s);
        reported.push((v, s));
        result = opt.next_with_value(v);
    }
    let (best, at) = result;
    assert_eq!(best, reported.iter().map(|r| r.0).min().unwrap());
    assert!(reported.iter().any(|r| r.0 == best && r.1 == at));
}

#[test]
fn hundred_reports_beat_grid_sampling() {
    let bounds = bounds_2d();
    let mut opt = Optimizer::new(&bounds, true);
    let mut best = i64::MAX;
    for _ in 0..100 {
        let s = opt.next_explore_point();
        let (b, _) = opt.next_with_value(f_xy(&s));
        best = b;
    }
    // exhaustive 10 x 10 grid at comparable resolution
    let mut grid_best = i64::MAX;
    for i in 0..10 {
        for j in 0..10 {
            let x = -10 * M + i * 20 * M / 9;
            let y = -20 * M + j * 40 * M / 9;
            let v = f_xy(&[x, y]);
            if v < grid_best {
                grid_best = v;
            }
        }
    }
    assert!(best <= grid_best);
}

#[test]
fn maximization_returns_positive_best() {
    let bounds = vec![(0, 1_048_576)];
    let mut opt = Optimizer::new(&bounds, false);
    let mut best = i64::MIN;
    for _ in 0..10 {
        let s = opt.next_explore_point();
        // objective: the coordinate itself
        let (b, at) = opt.next_with_value(s[0]);
        best = b;
        assert!(0 <= at[0] && at[0] <= 1_048_576);
    }
    assert_eq!(best, 1_048_576);
}

#[test]
fn exploration_depth_zero_still_converges() {
    let bounds = vec![(-10 * M, 10 * M)];
    let mut opt = Optimizer::new(&bounds, true).set_exploration_depth(0);
    let mut best = i64::MAX;
    for _ in 0..50 {
        let s = opt.next_explore_point();
        let x = s[0] as f64 / M as f64;
        let v = (x * x * M as f64).round() as i64;
        let (b, _) = opt.next_with_value(v);
        best = b;
    }
    // f(x) = x^2 has its minimum 0 at 0; 50 refinements get well below 1.0
    assert!(best < M);
    assert!(best >= 0);
}

#[test]
fn report_without_suggestion_degrades_gracefully() {
    let bounds = bounds_2d();
    let mut opt = Optimizer::new(&bounds, true);
    // never ask for a suggestion; the optimizer materializes them itself
    let mut last = (0, Vec::new());
    for v in [5 * M, -3 * M, 7 * M, -9 * M] {
        last = opt.next_with_value(v);
    }
    assert_eq!(last.0, -9 * M);
}

#[test]
fn to_domain_maps_unit_interval_affinely() {
    let space = SearchSpace::new(&vec![(-5, 7)]);
    assert_eq!(space.to_domain(&vec![0]), vec![-5]);
    assert_eq!(space.to_domain(&vec![1_048_576]), vec![7]);
    assert_eq!(space.to_domain(&vec![524_288]), vec![1]);
}

#[test]
fn score_formula_exact_value() {
    // one-dimensional simplex with corner values 10 and 30, range 25,
    // depth 3: raw = 30 + 25 * 6 / (6 + 3) = 46
    let s = Simplex {
        corners: vec![
            Point { coordinates: vec![0], value: 10 },
            Point { coordinates: vec![1_048_576], value: 30 },
        ],
        center: vec![524_288],
        cached_range: 25,
        depth: 3,
    };
    assert_eq!(s.evaluate(6), 46);
    // the score is capped at the best observed value...
    assert_eq!(s.scored(6, 40, 0), 40);
    // ...and kept as is when inside the band
    assert_eq!(s.scored(6, 100, 0), 46);
}

#[test]
fn split_replaces_one_corner_per_child() {
    let space = SearchSpace::new(&bounds_2d());
    let parent = Simplex::initial_simplex(&space);
    let new_point = Point { coordinates: vec![349_525, 349_525], value: 7 };
    let children = parent.split(&new_point, 5, 2);
    assert_eq!(children.len(), 3);
    for (k, child) in children.iter().enumerate() {
        assert_eq!(child.corners.len(), 3);
        assert_eq!(child.corners[k].coordinates, new_point.coordinates);
        assert_eq!(child.corners[k].value, 7);
        assert_eq!(child.cached_range, 5);
        assert_eq!(child.depth, 1);
        for m in 0..3 {
            if m != k {
                assert_eq!(child.corners[m].coordinates, parent.corners[m].coordinates);
                assert_eq!(child.corners[m].value, parent.corners[m].value);
            }
        }
    }
}

#[test]
fn initial_simplex_covers_the_unit_domain() {
    let space = SearchSpace::new(&bounds_2d());
    let s = Simplex::initial_simplex(&space);
    assert_eq!(s.corners.len(), 3);
    assert_eq!(s.corners[0].coordinates, vec![0, 0]);
    assert_eq!(s.corners[1].coordinates, vec![1_048_576, 0]);
    assert_eq!(s.corners[2].coordinates, vec![0, 1_048_576]);
    assert_eq!(s.center, vec![349_525, 349_525]);
    assert_eq!(s.depth, 0);
    assert_eq!(s.cached_range, 0);
}
