use mandelbrot_explorer::grid::{pixel_grid, plan_job, visits_grid_once, ConfigError, Pixel};

fn sorted(mut pixels: Vec<Pixel>) -> Vec<(u16, u16)> {
    let mut keys: Vec<(u16, u16)> = pixels.drain(..).map(|p| (p.x, p.y)).collect();
    keys.sort();
    keys
}

#[test]
fn raster_of_side_two_is_column_major() {
    let grid = pixel_grid(2);
    assert_eq!(
        grid,
        vec![
            Pixel { x: 0, y: 0 },
            Pixel { x: 0, y: 1 },
            Pixel { x: 1, y: 0 },
            Pixel { x: 1, y: 1 },
        ]
    );
}

#[test]
fn raster_of_side_zero_is_empty() {
    assert!(pixel_grid(0).is_empty());
}

#[test]
fn raster_of_default_side_has_every_pixel() {
    let grid = pixel_grid(512);
    assert_eq!(grid.len(), 512 * 512);
    assert_eq!(grid[0], Pixel { x: 0, y: 0 });
    assert_eq!(grid[513], Pixel { x: 1, y: 1 });
    assert_eq!(grid[512 * 512 - 1], Pixel { x: 511, y: 511 });
}

#[test]
fn plan_refuses_an_empty_grid() {
    assert_eq!(plan_job(0), Err(ConfigError::EmptyGrid));
}

#[test]
fn plan_visits_each_pixel_exactly_once() {
    let plan = plan_job(16).unwrap();
    assert_eq!(plan.len(), 256);
    let keys = sorted(plan);
    let mut expected: Vec<(u16, u16)> = Vec::new();
    for x in 0..16u16 {
        for y in 0..16u16 {
            expected.push((x, y));
        }
    }
    assert_eq!(keys, expected);
}

#[test]
fn plan_of_side_one_is_the_single_pixel() {
    assert_eq!(plan_job(1), Ok(vec![Pixel { x: 0, y: 0 }]));
}

#[test]
fn plan_is_not_in_raster_order() {
    let plan = plan_job(64).unwrap();
    assert_ne!(plan, pixel_grid(64));
    assert_eq!(sorted(plan), sorted(pixel_grid(64)));
}

#[test]
fn two_plans_differ() {
    let first = plan_job(64).unwrap();
    let second = plan_job(64).unwrap();
    assert_ne!(first, second);
}

#[test]
fn a_plan_passes_the_exactly_once_check() {
    assert!(visits_grid_once(&plan_job(32).unwrap(), 32));
    assert!(visits_grid_once(&pixel_grid(7), 7));
    assert!(visits_grid_once(&vec![], 0));
}

#[test]
fn the_exactly_once_check_finds_what_is_wrong() {
    let full = pixel_grid(3);
    let mut short = full.clone();
    short.pop();
    assert!(!visits_grid_once(&short, 3));
    let mut repeated = full.clone();
    repeated[8] = repeated[0];
    assert!(!visits_grid_once(&repeated, 3));
    let mut stray = full.clone();
    stray[4] = Pixel { x: 3, y: 0 };
    assert!(!visits_grid_once(&stray, 3));
    assert!(!visits_grid_once(&full, 4));
    assert!(!visits_grid_once(&full, 2));
}
