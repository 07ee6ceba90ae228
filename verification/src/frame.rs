//! The frame buffer: a grid of colours, one per pixel.

use vstd::prelude::*;
use crate::color::Color;

verus! {

/// The item for pixel `(x, y)` in a row-major sequence of rows `width` long.
pub open spec fn cell_of<T>(cells: Seq<T>, width: u32, x: u32, y: u32) -> T {
    cells[y * width + x]
}

/// A grid of `width` by `height` colours, stored row by row.
#[derive(Debug, PartialEq, Eq)]
pub struct FrameBuffer {
    width: u32,
    height: u32,
    cells: Vec<Color>,
}

impl View for FrameBuffer {
    type V = Seq<Color>;

    /// The cells in row-major order.
    closed spec fn view(&self) -> Seq<Color> {
        self.cells@
    }
}

impl FrameBuffer {
    /// There is one cell for each pixel.
    #[verifier::type_invariant]
    spec fn inv(self) -> bool {
        self.cells@.len() == self.width * self.height
    }

    /// The number of columns.
    pub closed spec fn width_spec(&self) -> u32 {
        self.width
    }

    /// The number of rows.
    pub closed spec fn height_spec(&self) -> u32 {
        self.height
    }

    /// The colour of the pixel in column `x` of row `y`.
    pub open spec fn at(&self, x: u32, y: u32) -> Color {
        cell_of(self@, self.width_spec(), x, y)
    }

    #[verifier::when_used_as_spec(width_spec)]
    pub fn width(&self) -> (w: u32)
        ensures
            w == self.width_spec(),
    {
        self.width
    }

    #[verifier::when_used_as_spec(height_spec)]
    pub fn height(&self) -> (h: u32)
        ensures
            h == self.height_spec(),
    {
        self.height
    }

    /// Makes a frame of cells that are already in row-major order.
    pub(crate) fn assemble(width: u32, height: u32, cells: Vec<Color>) -> (frame: FrameBuffer)
        requires
            cells@.len() == width * height,
        ensures
            frame.width() == width,
            frame.height() == height,
            frame@ == cells@,
    {
        FrameBuffer { width, height, cells }
    }

    /// The colour of pixel `(x, y)`, or `None` outside the frame.
    pub fn get(&self, x: u32, y: u32) -> (cell: Option<Color>)
        ensures
            cell == if x < self.width() && y < self.height() {
                Some(self.at(x, y))
            } else {
                None
            },
    {
        proof {
            use_type_invariant(self);
        }
        if x < self.width && y < self.height {
            proof {
                lemma_cell_index(x, y, self.width, self.height);
                assert(self.cells.len() <= usize::MAX);
            }
            let index: usize = y as usize * self.width as usize + x as usize;
            Some(self.cells[index])
        } else {
            None
        }
    }

    /// The frame as a stream of pixels: every pixel once, with its
    /// coordinates and its colour, row by row from the top and within each
    /// row from left to right.
    pub fn entries(&self) -> (stream: Vec<(u32, u32, Color)>)
        ensures
            stream@.len() == self.width() * self.height(),
            forall|x: u32, y: u32|
                x < self.width() && y < self.height() ==> #[trigger] cell_of(
                    stream@,
                    self.width(),
                    x,
                    y,
                ) == (x, y, self.at(x, y)),
    {
        proof {
            use_type_invariant(self);
        }
        let mut stream: Vec<(u32, u32, Color)> = Vec::new();
        let mut y: u32 = 0;
        while y < self.height
            invariant
                y <= self.height,
                self.cells@.len() == self.width * self.height,
                stream@.len() == y * self.width,
                forall|i: u32, j: u32|
                    i < self.width && j < y ==> #[trigger] cell_of(stream@, self.width, i, j) == (
                        i,
                        j,
                        self.at(i, j),
                    ),
            decreases self.height - y,
        {
            let ghost above = stream@;
            let mut x: u32 = 0;
            while x < self.width
                invariant
                    x <= self.width,
                    y < self.height,
                    self.cells@.len() == self.width * self.height,
                    above.len() == y * self.width,
                    stream@.len() == above.len() + x,
                    forall|k: int| 0 <= k < above.len() ==> stream@[k] == above[k],
                    forall|i: u32|
                        i < x ==> #[trigger] cell_of(stream@, self.width, i, y) == (
                            i,
                            y,
                            self.at(i, y),
                        ),
                decreases self.width - x,
            {
                proof {
                    lemma_cell_index(x, y, self.width, self.height);
                    assert(self.cells.len() <= usize::MAX);
                }
                let index: usize = y as usize * self.width as usize + x as usize;
                let ghost before = stream@;
                stream.push((x, y, self.cells[index]));
                assert forall|i: u32| i < x implies #[trigger] cell_of(stream@, self.width, i, y)
                    == cell_of(before, self.width, i, y) by {}
                x = x + 1;
            }
            proof {
                assert((y + 1) * self.width == y * self.width + self.width) by (nonlinear_arith);
                assert forall|i: u32, j: u32| i < self.width && j < y + 1 implies #[trigger] cell_of(
                    stream@,
                    self.width,
                    i,
                    j,
                ) == (i, j, self.at(i, j)) by {
                    if j < y {
                        lemma_earlier_row(i, j, y, self.width);
                        assert(cell_of(stream@, self.width, i, j) == cell_of(
                            above,
                            self.width,
                            i,
                            j,
                        ));
                    }
                }
            }
            y = y + 1;
        }
        assert(stream@.len() == self.width * self.height) by (nonlinear_arith)
            requires
                stream@.len() == y * self.width,
                y == self.height,
        ;
        stream
    }
}

/// A pixel inside the frame has its cell inside the row-major sequence.
proof fn lemma_cell_index(x: u32, y: u32, width: u32, height: u32)
    requires
        x < width,
        y < height,
    ensures
        0 <= y * width + x < width * height,
        y * width <= width * height - width,
{
    assert(y * width <= (height - 1) * width) by (nonlinear_arith)
        requires
            y <= height - 1,
            0 <= width,
    ;
    assert((height - 1) * width == width * height - width) by (nonlinear_arith);
}

/// Below row `y`, a pixel's cell lies before the cells of row `y`.
pub(crate) proof fn lemma_earlier_row(x: u32, j: u32, y: u32, width: u32)
    requires
        x < width,
        j < y,
    ensures
        0 <= j * width + x < y * width,
{
    assert(j * width + width <= y * width) by (nonlinear_arith)
        requires
            j + 1 <= y,
            0 <= width,
    ;
}

} // verus!
