use mandelbrot_explorer::escape::{classify, judge, IterationOutcome, Observation, MAX_ITER};
use num_complex::Complex32;

const QUIET: Observation = Observation { diverged: false, at_origin: false };
const DIVERGED: Observation = Observation { diverged: true, at_origin: false };
const ORIGIN: Observation = Observation { diverged: false, at_origin: true };

fn orbit(c: Complex32) -> Vec<Observation> {
    let mut z = Complex32::new(0.0, 0.0);
    let mut seen = Vec::new();
    for _ in 0..MAX_ITER {
        z = z * z + c;
        seen.push(Observation {
            diverged: z.norm_sqr() > 10000.0,
            at_origin: z.re == 0.0 && z.im == 0.0,
        });
    }
    seen
}

fn iterate(re: f32, im: f32) -> IterationOutcome {
    classify(&orbit(Complex32::new(re, im)))
}

#[test]
fn judge_dates_an_escape_at_its_step() {
    assert_eq!(judge(0, DIVERGED), Some(IterationOutcome::Escaped(0)));
    assert_eq!(judge(7, DIVERGED), Some(IterationOutcome::Escaped(7)));
    assert_eq!(judge(99, DIVERGED), Some(IterationOutcome::Escaped(99)));
}

#[test]
fn judge_stops_at_the_origin() {
    assert_eq!(judge(0, ORIGIN), Some(IterationOutcome::Bounded));
    assert_eq!(judge(42, ORIGIN), Some(IterationOutcome::Bounded));
}

#[test]
fn judge_leaves_a_quiet_step_open() {
    assert_eq!(judge(0, QUIET), None);
    assert_eq!(judge(99, QUIET), None);
}

#[test]
fn judge_looks_at_divergence_first() {
    let both = Observation { diverged: true, at_origin: true };
    assert_eq!(judge(3, both), Some(IterationOutcome::Escaped(3)));
}

#[test]
fn judge_from_the_limit_on_is_bounded() {
    assert_eq!(MAX_ITER, 100);
    assert_eq!(judge(100, DIVERGED), Some(IterationOutcome::Bounded));
    assert_eq!(judge(100, QUIET), Some(IterationOutcome::Bounded));
    assert_eq!(judge(u32::MAX, DIVERGED), Some(IterationOutcome::Bounded));
}

#[test]
fn classify_finds_the_first_divergence() {
    assert_eq!(classify(&vec![QUIET, QUIET, DIVERGED, DIVERGED]), IterationOutcome::Escaped(2));
    assert_eq!(classify(&vec![DIVERGED]), IterationOutcome::Escaped(0));
}

#[test]
fn classify_stops_at_the_origin_before_a_later_divergence() {
    assert_eq!(classify(&vec![QUIET, ORIGIN, DIVERGED]), IterationOutcome::Bounded);
}

#[test]
fn classify_of_a_quiet_or_empty_orbit_is_bounded() {
    assert_eq!(classify(&vec![]), IterationOutcome::Bounded);
    assert_eq!(classify(&vec![QUIET; 100]), IterationOutcome::Bounded);
    assert_eq!(classify(&vec![QUIET; 7]), IterationOutcome::Bounded);
}

#[test]
fn classify_ignores_what_comes_after_the_limit() {
    let mut seen = vec![QUIET; 100];
    seen.push(DIVERGED);
    assert_eq!(classify(&seen), IterationOutcome::Bounded);
    let mut seen = vec![QUIET; 99];
    seen.push(DIVERGED);
    assert_eq!(classify(&seen), IterationOutcome::Escaped(99));
}

#[test]
fn points_outside_radius_two_escape() {
    assert_eq!(iterate(3.0, 0.0), IterationOutcome::Escaped(2));
    assert_eq!(iterate(2.0000002, 0.0), IterationOutcome::Escaped(3));
    assert_eq!(iterate(-2.5, 0.0), IterationOutcome::Escaped(3));
    assert_eq!(iterate(0.0, 2.1), IterationOutcome::Escaped(3));
    assert_eq!(iterate(200.0, 0.0), IterationOutcome::Escaped(0));
    for k in 0..64 {
        let angle = k as f32 * 0.1;
        match iterate(2.01 * angle.cos(), 2.01 * angle.sin()) {
            IterationOutcome::Escaped(step) => assert!(step < 100),
            IterationOutcome::Bounded => panic!("bounded at angle {}", angle),
        }
    }
}

#[test]
fn the_origin_is_bounded() {
    let seen = orbit(Complex32::new(0.0, 0.0));
    assert!(seen[0].at_origin);
    assert_eq!(classify(&seen), IterationOutcome::Bounded);
    assert_eq!(judge(0, seen[0]), Some(IterationOutcome::Bounded));
}

#[test]
fn known_bounded_points_are_bounded() {
    assert_eq!(iterate(-1.0, 0.0), IterationOutcome::Bounded);
    assert_eq!(iterate(-0.5, 0.0), IterationOutcome::Bounded);
    assert_eq!(iterate(0.25, 0.0), IterationOutcome::Bounded);
    assert_eq!(iterate(-2.0, 0.0), IterationOutcome::Bounded);
}

#[test]
fn grid_of_side_four_over_the_initial_view() {
    let (left, top, right, bottom) = (-2.0f32, -1.5f32, 1.0f32, 1.5f32);
    let e = |step: u32| IterationOutcome::Escaped(step);
    let b = IterationOutcome::Bounded;
    let expected = [
        [e(3), e(4), b, e(4)],
        [e(3), e(5), b, e(5)],
        [e(4), e(8), b, e(8)],
        [e(4), e(7), b, e(7)],
    ];
    let coordinates = [[-2.0f32, -1.25, -0.5, 0.25], [-1.5f32, -0.75, 0.0, 0.75]];
    for x in 0..4usize {
        for y in 0..4usize {
            let re = (x as f32 / 4.0) * (right - left) + left;
            let im = (y as f32 / 4.0) * (bottom - top) + top;
            assert_eq!(re, coordinates[0][x]);
            assert_eq!(im, coordinates[1][y]);
            assert_eq!(iterate(re, im), expected[x][y], "pixel ({}, {})", x, y);
        }
    }
}
