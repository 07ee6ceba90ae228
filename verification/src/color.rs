//! Colours and the two policies that turn an escape outcome into one.

use vstd::prelude::*;
use crate::outcome::EscapeOutcome;

verus! {

/// A colour of three 8-bit channels: red, green and blue.
#[derive(Clone, Copy, Debug, PartialEq, Eq, Structural)]
pub struct Color {
    pub r: u8,
    pub g: u8,
    pub b: u8,
}

impl Color {
    /// Black, the colour of the points of the set.
    pub open spec fn black_spec() -> Color {
        Color { r: 0, g: 0, b: 0 }
    }

    /// White.
    pub open spec fn white_spec() -> Color {
        Color { r: 255, g: 255, b: 255 }
    }

    #[verifier::when_used_as_spec(black_spec)]
    pub fn black() -> (c: Color)
        ensures
            c == Color::black_spec(),
    {
        Color { r: 0, g: 0, b: 0 }
    }

    #[verifier::when_used_as_spec(white_spec)]
    pub fn white() -> (c: Color)
        ensures
            c == Color::white_spec(),
    {
        Color { r: 255, g: 255, b: 255 }
    }
}

/// The colour of the two-tone policy: black for a point that stayed bounded,
/// white for one that escaped.
pub open spec fn two_tone_of(outcome: EscapeOutcome) -> Color {
    if outcome.bounded() {
        Color::black()
    } else {
        Color::white()
    }
}

/// The colour of the banded policy: each channel is the count, divided by
/// 1, 8 and 16 in turn, reduced modulo 256.
pub open spec fn banded_of(outcome: EscapeOutcome) -> Color {
    Color {
        r: (outcome.count as int % 256) as u8,
        g: ((outcome.count as int / 8) % 256) as u8,
        b: ((outcome.count as int / 16) % 256) as u8,
    }
}

/// Colours an outcome by membership alone.
pub fn two_tone(outcome: EscapeOutcome) -> (c: Color)
    ensures
        c == two_tone_of(outcome),
{
    if outcome.is_bounded() {
        Color::black()
    } else {
        Color::white()
    }
}

/// Colours an outcome by its count, which gives bands around the set.
pub fn banded(outcome: EscapeOutcome) -> (c: Color)
    ensures
        c == banded_of(outcome),
{
    let count: u32 = outcome.count;
    Color {
        r: (count % 256) as u8,
        g: ((count / 8) % 256) as u8,
        b: ((count / 16) % 256) as u8,
    }
}

} // verus!
