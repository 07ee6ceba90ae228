//! The frame generator: shades every pixel of a frame with a per-pixel
//! evaluator and a colouring policy, on one thread or on many.

use vstd::prelude::*;
use crate::color::Color;
use crate::frame::{cell_of, lemma_earlier_row, FrameBuffer};
use crate::outcome::EscapeOutcome;
use rayon::iter::{IntoParallelIterator, ParallelIterator};
use vstd::arithmetic::div_mod::{
    lemma_div_pos_is_pos,
    lemma_fundamental_div_mod,
    lemma_mod_bound,
    lemma_multiply_divide_lt,
};

verus! {

/// `cell` is a colour that `colour` can give for an outcome that `evaluate`
/// can give for pixel `(x, y)`.
pub open spec fn shaded<E, C>(evaluate: E, colour: C, x: u32, y: u32, cell: Color) -> bool where
    E: Fn(u32, u32) -> EscapeOutcome,
    C: Fn(EscapeOutcome) -> Color,
{
    exists|outcome: EscapeOutcome| #[trigger]
        evaluate.ensures((x, y), outcome) && colour.ensures((outcome,), cell)
}

/// `row` holds, column by column, a shading of row `y`.
pub open spec fn is_row<E, C>(row: Seq<Color>, y: u32, width: u32, evaluate: E, colour: C) -> bool where
    E: Fn(u32, u32) -> EscapeOutcome,
    C: Fn(EscapeOutcome) -> Color,
{
    &&& row.len() == width
    &&& forall|x: int| 0 <= x < width ==> shaded(evaluate, colour, x as u32, y, #[trigger] row[x])
}

/// `frame` is a complete frame of the given size in which every pixel is
/// shaded by `evaluate` and `colour`.
pub open spec fn renders<E, C>(
    frame: FrameBuffer,
    width: u32,
    height: u32,
    evaluate: E,
    colour: C,
) -> bool where E: Fn(u32, u32) -> EscapeOutcome, C: Fn(EscapeOutcome) -> Color {
    &&& frame.width() == width
    &&& frame.height() == height
    &&& frame@.len() == width * height
    &&& forall|x: u32, y: u32|
        x < width && y < height ==> shaded(evaluate, colour, x, y, #[trigger] frame.at(x, y))
}

/// Pixel `(x, y)` may be evaluated, and every outcome of that evaluation may
/// be coloured.
pub open spec fn can_shade_pixel<E, C>(evaluate: E, colour: C, x: u32, y: u32) -> bool where
    E: Fn(u32, u32) -> EscapeOutcome,
    C: Fn(EscapeOutcome) -> Color,
{
    &&& evaluate.requires((x, y))
    &&& forall|outcome: EscapeOutcome| #[trigger]
        evaluate.ensures((x, y), outcome) ==> colour.requires((outcome,))
}

/// Every pixel of row `y` may be shaded.
pub open spec fn can_shade_row<E, C>(evaluate: E, colour: C, y: u32, width: u32) -> bool where
    E: Fn(u32, u32) -> EscapeOutcome,
    C: Fn(EscapeOutcome) -> Color,
{
    forall|x: u32| x < width ==> #[trigger] can_shade_pixel(evaluate, colour, x, y)
}

/// Every pixel of the frame may be shaded.
pub open spec fn can_shade<E, C>(evaluate: E, colour: C, width: u32, height: u32) -> bool where
    E: Fn(u32, u32) -> EscapeOutcome,
    C: Fn(EscapeOutcome) -> Color,
{
    forall|y: u32| y < height ==> #[trigger] can_shade_row(evaluate, colour, y, width)
}

/// Evaluates and colours one pixel.
pub fn shade_pixel<E, C>(x: u32, y: u32, evaluate: &E, colour: &C) -> (cell: Color) where
    E: Fn(u32, u32) -> EscapeOutcome,
    C: Fn(EscapeOutcome) -> Color,

    requires
        can_shade_pixel(*evaluate, *colour, x, y),
    ensures
        shaded(*evaluate, *colour, x, y, cell),
{
    let outcome = evaluate(x, y);
    colour(outcome)
}

/// Shades row `y` from left to right.
pub fn render_row<E, C>(y: u32, width: u32, evaluate: &E, colour: &C) -> (row: Vec<Color>) where
    E: Fn(u32, u32) -> EscapeOutcome,
    C: Fn(EscapeOutcome) -> Color,

    requires
        can_shade_row(*evaluate, *colour, y, width),
    ensures
        is_row(row@, y, width, *evaluate, *colour),
{
    let mut row: Vec<Color> = Vec::new();
    let mut x: u32 = 0;
    while x < width
        invariant
            x <= width,
            row@.len() == x,
            can_shade_row(*evaluate, *colour, y, width),
            forall|i: int|
                0 <= i < x ==> shaded(*evaluate, *colour, i as u32, y, #[trigger] row@[i]),
        decreases width - x,
    {
        let cell = shade_pixel(x, y, evaluate, colour);
        row.push(cell);
        x = x + 1;
    }
    row
}

/// Appends a copy of `row` to `cells`.
fn append_row(cells: &mut Vec<Color>, row: &Vec<Color>)
    ensures
        final(cells)@ == old(cells)@ + row@,
{
    let mut x: usize = 0;
    while x < row.len()
        invariant
            x <= row@.len(),
            cells@ == old(cells)@ + row@.subrange(0, x as int),
        decreases row@.len() - x,
    {
        cells.push(row[x]);
        x = x + 1;
    }
    assert(row@.subrange(0, x as int) == row@);
}

/// Appending a shading of row `y` to a shading of the rows above it gives a
/// shading of the rows up to and including `y`.
proof fn lemma_rows_extend<E, C>(
    above: Seq<Color>,
    row: Seq<Color>,
    y: u32,
    width: u32,
    evaluate: E,
    colour: C,
) where E: Fn(u32, u32) -> EscapeOutcome, C: Fn(EscapeOutcome) -> Color
    requires
        above.len() == y * width,
        forall|i: u32, j: u32|
            i < width && j < y ==> shaded(evaluate, colour, i, j, #[trigger] cell_of(above, width, i, j)),
        is_row(row, y, width, evaluate, colour),
    ensures
        (above + row).len() == (y + 1) * width,
        forall|i: u32, j: u32|
            i < width && j <= y ==> shaded(
                evaluate,
                colour,
                i,
                j,
                #[trigger] cell_of(above + row, width, i, j),
            ),
{
    assert((y + 1) * width == y * width + width) by (nonlinear_arith);
    assert forall|i: u32, j: u32| i < width && j <= y implies shaded(
        evaluate,
        colour,
        i,
        j,
        #[trigger] cell_of(above + row, width, i, j),
    ) by {
        if j < y {
            lemma_earlier_row(i, j, y, width);
            assert(cell_of(above + row, width, i, j) == cell_of(above, width, i, j));
        } else {
            assert(cell_of(above + row, width, i, j) == row[i as int]);
        }
    }
}

/// Generates a frame on the calling thread, row by row from the top and
/// within each row from left to right.
pub fn render_sequential<E, C>(width: u32, height: u32, evaluate: &E, colour: &C) -> (frame:
    FrameBuffer) where E: Fn(u32, u32) -> EscapeOutcome, C: Fn(EscapeOutcome) -> Color
    requires
        width * height <= usize::MAX,
        can_shade(*evaluate, *colour, width, height),
    ensures
        renders(frame, width, height, *evaluate, *colour),
{
    let mut cells: Vec<Color> = Vec::new();
    let mut y: u32 = 0;
    while y < height
        invariant
            y <= height,
            can_shade(*evaluate, *colour, width, height),
            cells@.len() == y * width,
            forall|i: u32, j: u32|
                i < width && j < y ==> shaded(
                    *evaluate,
                    *colour,
                    i,
                    j,
                    #[trigger] cell_of(cells@, width, i, j),
                ),
        decreases height - y,
    {
        let mut row = render_row(y, width, evaluate, colour);
        proof {
            lemma_rows_extend(cells@, row@, y, width, *evaluate, *colour);
        }
        cells.append(&mut row);
        y = y + 1;
    }
    assert(cells@.len() == width * height) by (nonlinear_arith)
        requires
            cells@.len() == y * width,
            y == height,
    ;
    FrameBuffer::assemble(width, height, cells)
}

/// Shades every row of the frame on rayon's worker pool and collects the rows
/// from the top down.
///
/// Wraps `rayon`'s `into_par_iter` on a range of `u32`, followed by `map` and
/// `collect` into a `Vec`. Trusted: the vector holds one item for each number
/// of the range, in the order of the range, and the item for `y` is what the
/// closure returned for `y`, here a call of `render_row`.
#[verifier::external_body]
fn par_rows<E, C>(width: u32, height: u32, evaluate: &E, colour: &C) -> (rows: Vec<
    Vec<Color>,
>) where E: Fn(u32, u32) -> EscapeOutcome + Sync, C: Fn(EscapeOutcome) -> Color + Sync
    requires
        can_shade(*evaluate, *colour, width, height),
    ensures
        rows@.len() == height,
        forall|y: int|
            0 <= y < height ==> is_row(#[trigger] rows@[y]@, y as u32, width, *evaluate, *colour),
{
    (0..height).into_par_iter().map(|y| render_row(y, width, evaluate, colour)).collect()
}

/// Generates a frame with the rows shaded in parallel, each row by one
/// worker, and merged afterwards on the calling thread.
pub fn render_parallel<E, C>(width: u32, height: u32, evaluate: &E, colour: &C) -> (frame:
    FrameBuffer) where
    E: Fn(u32, u32) -> EscapeOutcome + Sync,
    C: Fn(EscapeOutcome) -> Color + Sync,

    requires
        width * height <= usize::MAX,
        can_shade(*evaluate, *colour, width, height),
    ensures
        renders(frame, width, height, *evaluate, *colour),
{
    let rows = par_rows(width, height, evaluate, colour);
    let mut cells: Vec<Color> = Vec::new();
    let mut y: u32 = 0;
    while y < height
        invariant
            y <= height,
            rows@.len() == height,
            forall|k: int|
                0 <= k < height ==> is_row(
                    #[trigger] rows@[k]@,
                    k as u32,
                    width,
                    *evaluate,
                    *colour,
                ),
            cells@.len() == y * width,
            forall|i: u32, j: u32|
                i < width && j < y ==> shaded(
                    *evaluate,
                    *colour,
                    i,
                    j,
                    #[trigger] cell_of(cells@, width, i, j),
                ),
        decreases height - y,
    {
        let row = &rows[y as usize];
        proof {
            lemma_rows_extend(cells@, row@, y, width, *evaluate, *colour);
        }
        append_row(&mut cells, row);
        y = y + 1;
    }
    assert(cells@.len() == width * height) by (nonlinear_arith)
        requires
            cells@.len() == y * width,
            y == height,
    ;
    FrameBuffer::assemble(width, height, cells)
}

/// `evaluate` has one outcome for each pixel of the frame, and `colour` one
/// colour for each outcome.
pub open spec fn single_valued_shading<E, C>(
    evaluate: E,
    colour: C,
    width: u32,
    height: u32,
) -> bool where E: Fn(u32, u32) -> EscapeOutcome, C: Fn(EscapeOutcome) -> Color {
    &&& forall|x: u32, y: u32, first: EscapeOutcome, second: EscapeOutcome|
        x < width && y < height && #[trigger] evaluate.ensures((x, y), first)
            && #[trigger] evaluate.ensures((x, y), second) ==> first == second
    &&& forall|outcome: EscapeOutcome, first: Color, second: Color|
        #[trigger] colour.ensures((outcome,), first) && #[trigger] colour.ensures(
            (outcome,),
            second,
        ) ==> first == second
}

/// The frame does not depend on the order in which its pixels are shaded:
/// where the evaluator and the colouring are single-valued, any two complete
/// frames of one size shaded by them hold the same cells. In particular the
/// frames of `render_sequential` and `render_parallel` are identical.
pub proof fn lemma_strategies_agree<E, C>(
    first: FrameBuffer,
    second: FrameBuffer,
    width: u32,
    height: u32,
    evaluate: E,
    colour: C,
) where E: Fn(u32, u32) -> EscapeOutcome, C: Fn(EscapeOutcome) -> Color
    requires
        single_valued_shading(evaluate, colour, width, height),
        renders(first, width, height, evaluate, colour),
        renders(second, width, height, evaluate, colour),
    ensures
        first@ == second@,
        first.width() == second.width(),
        first.height() == second.height(),
{
    assert forall|k: int| 0 <= k < first@.len() implies first@[k] == second@[k] by {
        assert(width > 0) by (nonlinear_arith)
            requires
                0 <= k < width * height,
        ;
        let x = k % (width as int);
        let y = k / (width as int);
        lemma_fundamental_div_mod(k, width as int);
        lemma_mod_bound(k, width as int);
        lemma_div_pos_is_pos(k, width as int);
        lemma_multiply_divide_lt(k, width as int, height as int);
        assert(y * width + x == k) by (nonlinear_arith)
            requires
                k == width * y + x,
        ;
        assert(first@[k] == first.at(x as u32, y as u32));
        assert(second@[k] == second.at(x as u32, y as u32));
        assert(shaded(evaluate, colour, x as u32, y as u32, first.at(x as u32, y as u32)));
        assert(shaded(evaluate, colour, x as u32, y as u32, second.at(x as u32, y as u32)));
    }
    assert(first@ =~= second@);
}

} // verus!
