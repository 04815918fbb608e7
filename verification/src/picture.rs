//! The picture of a label: one byte of coverage for each pixel, held in a matrix.

use crate::text::texel;
use crate::text::texel_position;
use crate::text::Orientation;
use crate::text::TEXT_PADDING;
use nalgebra::DMatrix;
use vstd::prelude::*;

verus! {

/// A matrix of bytes of nalgebra.
///
/// The matrix type itself cannot be declared to Verus, for the dimensions of its storage
/// are bounded by a trait of nalgebra. So the matrix is held where Verus does not look,
/// and is reached through the four functions below and nothing else.
#[verifier::external_body]
pub struct Cells {
    matrix: DMatrix<u8>,
}

/// The number of rows of the matrix.
pub uninterp spec fn cells_rows(c: Cells) -> nat;

/// The columns of the matrix, each from its first row down.
pub uninterp spec fn cells_columns(c: Cells) -> Seq<Seq<u8>>;

/// Whether every column is as long as the matrix has rows.
pub open spec fn shaped(c: Cells) -> bool {
    forall|j: int| 0 <= j < cells_columns(c).len() ==> (#[trigger] cells_columns(c)[j]).len()
        == cells_rows(c)
}

/// A matrix of `nrows` rows and `ncols` columns that holds zero everywhere.
///
/// This is `DMatrix::zeros` of nalgebra: it collects `nrows * ncols` zeros into a vector
/// and takes that for a matrix of the given shape. The count must not overflow, and a
/// vector of bytes holds no more of them than `isize::MAX`.
#[verifier::external_body]
fn zeros(nrows: usize, ncols: usize) -> (c: Cells)
    requires
        nrows * ncols <= isize::MAX,
    ensures
        shaped(c),
        cells_rows(c) == nrows,
        cells_columns(c) == Seq::new(ncols as nat, |j: int| Seq::new(nrows as nat, |i: int| 0u8)),
{
    Cells { matrix: DMatrix::<u8>::zeros(nrows, ncols) }
}

/// Puts `value` into row `i` of column `j`.
///
/// This is the indexing of a matrix of nalgebra by a pair of row and column, which
/// panics on an index outside the shape and reaches the one entry otherwise.
#[verifier::external_body]
fn put(c: &mut Cells, i: usize, j: usize, value: u8)
    requires
        i < cells_rows(*old(c)),
        j < cells_columns(*old(c)).len(),
    ensures
        shaped(*old(c)) ==> shaped(*final(c)),
        cells_rows(*final(c)) == cells_rows(*old(c)),
        cells_columns(*final(c)) == cells_columns(*old(c)).update(
            j as int,
            cells_columns(*old(c))[j as int].update(i as int, value),
        ),
{
    c.matrix[(i, j)] = value;
}

/// The matrix with rows and columns changed over.
///
/// This is `Matrix::transpose` of nalgebra: the result has a row for each column and a
/// column for each row, and holds at `(j, i)` what the matrix holds at `(i, j)`.
#[verifier::external_body]
fn transposed(c: &Cells) -> (t: Cells)
    requires
        shaped(*c),
    ensures
        shaped(t),
        cells_rows(t) == cells_columns(*c).len(),
        cells_columns(t) == Seq::new(
            cells_rows(*c),
            |i: int| Seq::new(cells_columns(*c).len(), |j: int| cells_columns(*c)[j][i]),
        ),
{
    Cells { matrix: c.matrix.transpose() }
}

/// The entries of the matrix, column after column.
///
/// This is `Matrix::as_slice` of nalgebra, which gives the entries ordered column by
/// column; they are copied into a vector.
#[verifier::external_body]
fn entries(c: &Cells) -> (bytes: Vec<u8>)
    requires
        shaped(*c),
    ensures
        bytes@.len() == cells_rows(*c) * cells_columns(*c).len(),
        forall|i: int, j: int|
            0 <= i < cells_rows(*c) && 0 <= j < cells_columns(*c).len() ==> bytes@[i + j
                * cells_rows(*c)] == #[trigger] cells_columns(*c)[j][i],
{
    c.matrix.as_slice().to_vec()
}

/// The picture of a label while its letters are drawn into it.
pub struct Picture {
    cells: Cells,
    width: usize,
    height: usize,
}

/// A picture as the graphics card takes it: its bytes line after line, and the number
/// of bytes in a line and of lines.
pub struct Texture {
    pub bytes: Vec<u8>,
    pub width: usize,
    pub height: usize,
}

/// Whether the texture is the picture of the lines `lines`, each `length` pixels long.
/// A label that is written from left to right is the picture as it is; one that is
/// written upwards is the picture with lines and columns changed over.
pub open spec fn is_texture_of(
    texture: Texture,
    lines: Seq<Seq<u8>>,
    length: nat,
    orientation: Orientation,
) -> bool {
    &&& texture.bytes@.len() == texture.width * texture.height
    &&& match orientation {
        Orientation::Horizontal => {
            &&& texture.width == length
            &&& texture.height == lines.len()
            &&& forall|x: int, y: int|
                0 <= x < length && 0 <= y < lines.len() ==> texture.bytes@[x + y * texture.width]
                    == #[trigger] lines[y][x]
        },
        Orientation::Vertical => {
            &&& texture.width == lines.len()
            &&& texture.height == length
            &&& forall|x: int, y: int|
                0 <= x < length && 0 <= y < lines.len() ==> texture.bytes@[y + x * texture.width]
                    == #[trigger] lines[y][x]
        },
    }
}

impl Picture {
    /// Whether the picture is whole: every line is as long as the picture is wide.
    pub closed spec fn wf(&self) -> bool {
        &&& shaped(self.cells)
        &&& cells_rows(self.cells) == self.width
        &&& cells_columns(self.cells).len() == self.height
    }

    /// The lines of the picture from the first down, each from the left: the coverage
    /// of each pixel.
    pub closed spec fn lines(&self) -> Seq<Seq<u8>> {
        cells_columns(self.cells)
    }

    /// The number of pixels in a line.
    pub closed spec fn across(&self) -> nat {
        self.width as nat
    }

    /// A picture without coverage for letters of `glyphs_width` by `glyphs_height`
    /// pixels, with the padding round them. There is none where the picture would hold
    /// more bytes than a vector can.
    pub fn blank(glyphs_width: u32, glyphs_height: u32) -> (r: Option<Picture>)
        ensures
            r is Some <==> (glyphs_width + 2 * TEXT_PADDING) * (glyphs_height + 2 * TEXT_PADDING)
                <= isize::MAX,
            r is Some ==> r->Some_0.wf() && r->Some_0.across() == glyphs_width + 2 * TEXT_PADDING
                && r->Some_0.lines() == Seq::new(
                (glyphs_height + 2 * TEXT_PADDING) as nat,
                |y: int| Seq::new((glyphs_width + 2 * TEXT_PADDING) as nat, |x: int| 0u8),
            ),
    {
        let width: u64 = glyphs_width as u64 + 2 * (TEXT_PADDING as u64);
        let height: u64 = glyphs_height as u64 + 2 * (TEXT_PADDING as u64);
        assert(width * height <= 0x1_0000_0027 * 0x1_0000_0027) by (nonlinear_arith)
            requires
                0 <= width <= 0x1_0000_0027,
                0 <= height <= 0x1_0000_0027,
        ;
        let area: u128 = width as u128 * height as u128;
        if area > isize::MAX as u128 {
            return None;
        }
        assert(width <= width * height && height <= width * height) by (nonlinear_arith)
            requires
                width >= 1,
                height >= 1,
        ;
        let cells = zeros(width as usize, height as usize);
        Some(Picture { cells, width: width as usize, height: height as usize })
    }

    /// Puts the coverage of the pixel `(x, y)` of a letter into the picture, the
    /// letter's box beginning at `(min_x, min_y)`. A pixel outside the picture is left
    /// out.
    pub fn draw(
        &mut self,
        x: u32,
        y: u32,
        min_x: i32,
        min_y: i32,
        glyphs_height: u32,
        orientation: Orientation,
        coverage: u8,
    )
        requires
            old(self).wf(),
        ensures
            final(self).wf(),
            final(self).across() == old(self).across(),
            final(self).lines() == (match texel(x, y, min_x, min_y, glyphs_height, orientation) {
                Some(place) => if place.0 < old(self).across() && place.1 < old(self).lines().len() {
                    old(self).lines().update(
                        place.1,
                        old(self).lines()[place.1].update(place.0, coverage),
                    )
                } else {
                    old(self).lines()
                },
                None => old(self).lines(),
            }),
    {
        match texel_position(x, y, min_x, min_y, glyphs_height, orientation) {
            Some((column, line)) => {
                if column < self.width as u64 && line < self.height as u64 {
                    put(&mut self.cells, column as usize, line as usize, coverage);
                }
            },
            None => {},
        }
    }

    /// The picture as the graphics card takes it.
    pub fn finish(&self, orientation: Orientation) -> (texture: Texture)
        requires
            self.wf(),
        ensures
            is_texture_of(texture, self.lines(), self.across(), orientation),
    {
        match orientation {
            Orientation::Horizontal => Texture {
                bytes: entries(&self.cells),
                width: self.width,
                height: self.height,
            },
            Orientation::Vertical => {
                let turned = transposed(&self.cells);
                let bytes = entries(&turned);
                proof {
                    assert forall|x: int, y: int|
                        0 <= x < self.across() && 0 <= y < self.lines().len() implies bytes@[y + x
                        * self.height] == #[trigger] self.lines()[y][x] by {
                        assert(cells_columns(turned)[x][y] == self.lines()[y][x]);
                    }
                    assert(self.height * self.width == self.width * self.height)
                        by (nonlinear_arith);
                }
                Texture { bytes, width: self.height, height: self.width }
            },
        }
    }
}

} // verus!
