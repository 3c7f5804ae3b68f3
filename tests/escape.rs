use mandelbrot::escape::{escape_level, EscapeCounter};

// Escape-time byte of the point `re + im i`, with the orbit computed here and
// the step decisions and normalisation taken by the library.
fn evaluate(re: f64, im: f64, budget: i32) -> u8 {
    let mut counter = EscapeCounter::new(budget);
    let (mut x, mut y, mut x2, mut y2) = (0.0f64, 0.0f64, 0.0f64, 0.0f64);
    while counter.observe(x * x + y * y <= 4.0) {
        y = 2.0 * x * y + im;
        x = x2 - y2 + re;
        x2 = x * x;
        y2 = y * y;
    }
    counter.level()
}

fn steps(re: f64, im: f64, budget: i32) -> i32 {
    let mut counter = EscapeCounter::new(budget);
    let (mut x, mut y, mut x2, mut y2) = (0.0f64, 0.0f64, 0.0f64, 0.0f64);
    while counter.observe(x * x + y * y <= 4.0) {
        y = 2.0 * x * y + im;
        x = x2 - y2 + re;
        x2 = x * x;
        y2 = y * y;
    }
    counter.iterations()
}

#[test]
fn level_rounds_to_nearest() {
    assert_eq!(escape_level(1, 2), 128);
    assert_eq!(escape_level(1, 3), 85);
    assert_eq!(escape_level(2, 3), 170);
    assert_eq!(escape_level(1, 64), 4);
    assert_eq!(escape_level(32, 64), 128);
}

#[test]
fn level_clamps_to_byte_range() {
    assert_eq!(escape_level(0, 5), 0);
    assert_eq!(escape_level(5, 5), 255);
    assert_eq!(escape_level(-1, 5), 0);
    assert_eq!(escape_level(10, 5), 255);
}

#[test]
fn level_of_zero_budget_is_zero() {
    assert_eq!(escape_level(0, 0), 0);
    assert_eq!(escape_level(7, 0), 0);
    assert_eq!(escape_level(3, -4), 0);
}

#[test]
fn origin_reaches_full_level() {
    for n in [1, 2, 10, 50, 64, 1000] {
        assert_eq!(evaluate(0.0, 0.0, n), 255);
    }
}

#[test]
fn zero_budget_gives_zero() {
    for (re, im) in [(0.0, 0.0), (3.0, 0.0), (-0.5, 0.5), (1.0, -1.0)] {
        assert_eq!(evaluate(re, im, 0), 0);
        assert_eq!(steps(re, im, 0), 0);
    }
}

#[test]
fn step_count_grows_with_budget() {
    for (re, im) in [(3.0, 0.0), (0.3, 0.6), (-0.75, 0.1), (0.26, 0.0)] {
        let mut last = 0;
        for n in 0..200 {
            let s = steps(re, im, n);
            assert!(s >= last);
            assert!(s <= n);
            last = s;
        }
    }
}

#[test]
fn escaping_point_levels() {
    // 3 + 0i leaves radius 2 after its first step.
    assert_eq!(steps(3.0, 0.0, 1), 1);
    assert_eq!(steps(3.0, 0.0, 2), 1);
    assert_eq!(evaluate(3.0, 0.0, 1), 255);
    assert_eq!(evaluate(3.0, 0.0, 2), 128);
    assert_eq!(evaluate(3.0, 0.0, 3), 85);
}

#[test]
fn counter_stops_at_first_unbounded_observation() {
    let mut c = EscapeCounter::new(10);
    assert!(c.observe(true));
    assert!(c.observe(true));
    assert!(!c.observe(false));
    assert_eq!(c.iterations(), 2);
    assert_eq!(c.level(), 51);
}

#[test]
fn counter_stops_at_budget() {
    let mut c = EscapeCounter::new(3);
    assert!(c.observe(true));
    assert!(c.observe(true));
    assert!(c.observe(true));
    assert!(!c.observe(true));
    assert_eq!(c.iterations(), 3);
    assert_eq!(c.level(), 255);
}
