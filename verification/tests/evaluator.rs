use mandelbrot::escape::escape_time;
use mandelbrot::outcome::EscapeOutcome;
use num_complex::Complex;

/// The escape-time outcome of the point `re + im i` of the complex plane.
fn membership(re: f64, im: f64, budget: u32) -> EscapeOutcome {
    let c = Complex::new(re, im);
    escape_time(
        Complex::new(0.0, 0.0),
        budget,
        &|z: Complex<f64>| z * z + c,
        &|z: &Complex<f64>| z.norm_sqr() > 4.0,
    )
}

#[test]
fn origin_is_bounded_for_any_positive_budget() {
    for budget in [1u32, 2, 3, 10, 1000, 2000] {
        let outcome = membership(0.0, 0.0, budget);
        assert!(outcome.is_bounded());
        assert_eq!(outcome.count, budget);
        assert_eq!(outcome.budget, budget);
    }
}

#[test]
fn minus_one_is_bounded() {
    let outcome = membership(-1.0, 0.0, 1000);
    assert!(outcome.is_bounded());
    assert_eq!(outcome, EscapeOutcome { count: 1000, budget: 1000 });
    assert!(membership(-1.0, 0.0, 1).is_bounded());
    assert!(membership(-1.0, 0.0, 2000).is_bounded());
}

#[test]
fn one_escapes_at_the_third_update() {
    // 0 -> 1 -> 2 -> 5: the first two states lie on or inside the circle.
    let outcome = membership(1.0, 0.0, 1000);
    assert!(!outcome.is_bounded());
    assert_eq!(outcome, EscapeOutcome { count: 2, budget: 1000 });
}

#[test]
fn three_escapes_at_the_first_update() {
    let outcome = membership(3.0, 0.0, 1000);
    assert!(!outcome.is_bounded());
    assert_eq!(outcome.count, 0);
    assert_eq!(outcome.budget, 1000);
}

#[test]
fn points_outside_the_circle_of_radius_two_escape() {
    let points = [
        (2.1, 0.0),
        (-2.0001, 0.0),
        (0.0, 2.5),
        (0.0, -2.5),
        (1.5, 1.5),
        (-1.5, -1.5),
        (3.0, 0.0),
        (100.0, -100.0),
    ];
    for (re, im) in points {
        let outcome = membership(re, im, 1000);
        assert!(!outcome.is_bounded(), "{re} + {im}i stayed bounded");
        assert!(outcome.count < outcome.budget);
    }
}

#[test]
fn zero_budget_reports_bounded_for_every_point() {
    let points = [(0.0, 0.0), (-1.0, 0.0), (1.0, 0.0), (3.0, 0.0), (100.0, 100.0), (-0.5, 0.5)];
    for (re, im) in points {
        let outcome = membership(re, im, 0);
        assert!(outcome.is_bounded());
        assert_eq!(outcome, EscapeOutcome { count: 0, budget: 0 });
    }
}

#[test]
fn threshold_is_strict() {
    // 0 -> 2 -> 6: a squared magnitude of exactly four has not escaped.
    let outcome = membership(2.0, 0.0, 1000);
    assert_eq!(outcome.count, 1);
    // 0 -> -2 -> 2 -> 2 -> ...: the orbit stays on the circle.
    assert!(membership(-2.0, 0.0, 1000).is_bounded());
}

#[test]
fn escape_at_the_last_update_is_an_escape() {
    let spent = membership(1.0, 0.0, 3);
    assert_eq!(spent, EscapeOutcome { count: 2, budget: 3 });
    assert!(!spent.is_bounded());
    let short = membership(1.0, 0.0, 2);
    assert_eq!(short, EscapeOutcome { count: 2, budget: 2 });
    assert!(short.is_bounded());
    let shorter = membership(3.0, 0.0, 1);
    assert_eq!(shorter, EscapeOutcome { count: 0, budget: 1 });
    assert!(!shorter.is_bounded());
}

#[test]
fn imaginary_unit_is_bounded() {
    // 0 -> i -> -1 + i -> -i -> -1 + i -> ...
    assert!(membership(0.0, 1.0, 2000).is_bounded());
    assert!(membership(0.0, -1.0, 2000).is_bounded());
}

#[test]
fn evaluator_is_deterministic() {
    for (re, im) in [(0.3, 0.5), (-0.75, 0.1), (0.26, 0.0), (-1.76, 0.01)] {
        assert_eq!(membership(re, im, 500), membership(re, im, 500));
    }
}

#[test]
fn iteration_runs_over_any_state() {
    // 1 -> 2 -> 4 -> ... -> 128: the seventh update is the first above 100.
    let outcome = escape_time(1u64, 20, &|z: u64| z * 2, &|z: &u64| *z > 100);
    assert_eq!(outcome, EscapeOutcome { count: 6, budget: 20 });
    let spent = escape_time(1u64, 6, &|z: u64| z * 2, &|z: &u64| *z > 100);
    assert_eq!(spent, EscapeOutcome { count: 6, budget: 6 });
    assert!(spent.is_bounded());
}

#[test]
fn fixed_point_never_escapes() {
    let outcome = escape_time(7i32, 50, &|z: i32| z, &|z: &i32| *z != 7);
    assert_eq!(outcome, EscapeOutcome { count: 50, budget: 50 });
}

#[test]
fn outcome_builders_agree_with_the_evaluator() {
    assert_eq!(EscapeOutcome::stayed(1000), membership(0.0, 0.0, 1000));
    assert_eq!(EscapeOutcome::escaped_at(2, 1000), membership(1.0, 0.0, 1000));
    assert!(EscapeOutcome::stayed(0).is_bounded());
    assert!(!EscapeOutcome::escaped_at(0, 1).is_bounded());
}
