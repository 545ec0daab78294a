use mandelbrot_explorer::view::{BoundsError, ComplexPoint, ViewBounds, ViewStack};

fn point(re: f32, im: f32) -> ComplexPoint {
    ComplexPoint { re: re.to_bits(), im: im.to_bits() }
}

fn bounds(left: f32, top: f32, right: f32, bottom: f32) -> ViewBounds {
    ViewBounds { upper_left: point(left, top), lower_right: point(right, bottom) }
}

#[test]
fn initial_view_is_the_default_rectangle() {
    assert_eq!(ViewBounds::initial(), bounds(-2.0, -1.5, 1.0, 1.5));
}

#[test]
fn new_accepts_a_proper_rectangle() {
    assert_eq!(
        ViewBounds::new(point(-2.0, -1.5), point(1.0, 1.5)),
        Ok(bounds(-2.0, -1.5, 1.0, 1.5))
    );
}

#[test]
fn new_refuses_zero_width() {
    assert_eq!(ViewBounds::new(point(1.0, -1.5), point(1.0, 1.5)), Err(BoundsError::Degenerate));
}

#[test]
fn new_refuses_negative_height() {
    assert_eq!(ViewBounds::new(point(-2.0, 1.5), point(1.0, -1.5)), Err(BoundsError::Degenerate));
}

#[test]
fn new_refuses_infinite_and_undefined_corners() {
    assert_eq!(
        ViewBounds::new(point(f32::NEG_INFINITY, -1.5), point(1.0, 1.5)),
        Err(BoundsError::NotFinite)
    );
    assert_eq!(
        ViewBounds::new(point(-2.0, -1.5), point(1.0, f32::NAN)),
        Err(BoundsError::NotFinite)
    );
}

#[test]
fn double_scales_both_corners() {
    assert_eq!(bounds(-2.0, -1.5, 1.0, 1.5).double(), bounds(-4.0, -3.0, 2.0, 3.0));
    assert_eq!(point(0.25, -0.125).double(), point(0.5, -0.25));
}

#[test]
fn new_stack_holds_its_root() {
    let stack = ViewStack::new(ViewBounds::initial());
    assert_eq!(stack.len(), 1);
    assert_eq!(stack.top(), ViewBounds::initial());
}

#[test]
fn push_makes_the_view_active() {
    let mut stack = ViewStack::new(ViewBounds::initial());
    let inner = bounds(-1.0, -0.5, 0.0, 0.5);
    stack.push(inner);
    assert_eq!(stack.len(), 2);
    assert_eq!(stack.top(), inner);
}

#[test]
fn push_then_pop_restores_the_prior_top() {
    let mut stack = ViewStack::new(ViewBounds::initial());
    let first = bounds(-1.0, -0.5, 0.0, 0.5);
    let second = bounds(-0.75, -0.25, -0.5, 0.0);
    stack.push(first);
    stack.push(second);
    assert_eq!(stack.pop_or_double(), first);
    assert_eq!(stack.top(), first);
    assert_eq!(stack.len(), 2);
    assert_eq!(stack.pop_or_double(), ViewBounds::initial());
    assert_eq!(stack.len(), 1);
}

#[test]
fn push_at_the_root_then_pop_restores_the_root() {
    let mut stack = ViewStack::new(ViewBounds::initial());
    stack.push(bounds(-1.0, -0.5, 0.0, 0.5));
    assert_eq!(stack.pop_or_double(), ViewBounds::initial());
    assert_eq!(stack.len(), 1);
}

#[test]
fn zooming_out_at_the_root_doubles_each_time() {
    let mut stack = ViewStack::new(ViewBounds::initial());
    assert_eq!(stack.pop_or_double(), bounds(-4.0, -3.0, 2.0, 3.0));
    assert_eq!(stack.len(), 1);
    assert_eq!(stack.pop_or_double(), bounds(-8.0, -6.0, 4.0, 6.0));
    assert_eq!(stack.len(), 1);
    let mut expected = (-8.0f32, -6.0f32, 4.0f32, 6.0f32);
    for _ in 0..20 {
        expected = (expected.0 * 2.0, expected.1 * 2.0, expected.2 * 2.0, expected.3 * 2.0);
        assert_eq!(stack.pop_or_double(), bounds(expected.0, expected.1, expected.2, expected.3));
        assert_eq!(stack.len(), 1);
    }
    assert_eq!(stack.top(), bounds(expected.0, expected.1, expected.2, expected.3));
}

#[test]
fn zooming_out_past_the_largest_numbers_reaches_infinity() {
    let mut stack = ViewStack::new(bounds(-1.0e38, -1.0e38, 1.0e38, 1.0e38));
    stack.pop_or_double();
    let top = stack.pop_or_double();
    assert_eq!(top, bounds(f32::NEG_INFINITY, f32::NEG_INFINITY, f32::INFINITY, f32::INFINITY));
    assert_eq!(stack.len(), 1);
}
