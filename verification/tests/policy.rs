use mandelbrot::color::{banded, two_tone, Color};
use mandelbrot::outcome::EscapeOutcome;

#[test]
fn two_tone_is_black_inside_and_white_outside() {
    assert_eq!(two_tone(EscapeOutcome { count: 2000, budget: 2000 }), Color { r: 0, g: 0, b: 0 });
    assert_eq!(two_tone(EscapeOutcome { count: 0, budget: 0 }), Color { r: 0, g: 0, b: 0 });
    assert_eq!(two_tone(EscapeOutcome { count: 0, budget: 2000 }), Color { r: 255, g: 255, b: 255 });
    assert_eq!(
        two_tone(EscapeOutcome { count: 1999, budget: 2000 }),
        Color { r: 255, g: 255, b: 255 }
    );
}

#[test]
fn named_colours() {
    assert_eq!(Color::black(), Color { r: 0, g: 0, b: 0 });
    assert_eq!(Color::white(), Color { r: 255, g: 255, b: 255 });
}

#[test]
fn banded_takes_each_channel_modulo_256() {
    let at = |count: u32| banded(EscapeOutcome { count, budget: u32::MAX });
    assert_eq!(at(0), Color { r: 0, g: 0, b: 0 });
    assert_eq!(at(1), Color { r: 1, g: 0, b: 0 });
    assert_eq!(at(8), Color { r: 8, g: 1, b: 0 });
    assert_eq!(at(16), Color { r: 16, g: 2, b: 1 });
    assert_eq!(at(255), Color { r: 255, g: 31, b: 15 });
    assert_eq!(at(256), Color { r: 0, g: 32, b: 16 });
    assert_eq!(at(1000), Color { r: 232, g: 125, b: 62 });
    assert_eq!(at(2000), Color { r: 208, g: 250, b: 125 });
    assert_eq!(at(2048), Color { r: 0, g: 0, b: 128 });
    assert_eq!(at(4096), Color { r: 0, g: 0, b: 0 });
    assert_eq!(at(u32::MAX), Color { r: 255, g: 255, b: 255 });
}

#[test]
fn banded_reads_the_count_alone() {
    assert_eq!(
        banded(EscapeOutcome { count: 37, budget: 1000 }),
        banded(EscapeOutcome { count: 37, budget: 37 })
    );
    assert_eq!(banded(EscapeOutcome { count: 37, budget: 1000 }), Color { r: 37, g: 4, b: 2 });
}
