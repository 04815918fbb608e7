//! Where the labels of the plot stand on the screen. The letters themselves are drawn
//! elsewhere; here they are a block of pixels of a known width and height.

use crate::rational::Rational;
use crate::rational::quotient;
use vstd::prelude::*;

verus! {

/// The direction in which a label is written.
#[derive(Clone, Copy, Debug, PartialEq, Eq, Structural)]
pub enum Orientation {
    Horizontal,
    Vertical,
}

/// The labels of the plot.
#[derive(Clone, Copy, Debug, PartialEq, Eq, Structural)]
pub enum Label {
    /// The title, above the grid.
    Title,
    /// The name of the data axis, left of the grid.
    DataAxis,
    /// The name of the time axis, below the grid.
    TimeAxis,
    /// The mark of the value zero, right of the grid.
    Zero,
}

/// The pixels that are left free round the letters of a label, on every side.
pub const TEXT_PADDING: u32 = 20;

/// The width and the height of the rectangle of a label, as parts of the width and the
/// height of the screen. The letters take `glyphs_width` by `glyphs_height` pixels where
/// they are written from left to right; written upwards they take as much the other way
/// round.
pub open spec fn label_extent(
    glyphs_width: u32,
    glyphs_height: u32,
    width: u32,
    height: u32,
    orientation: Orientation,
) -> (real, real) {
    match orientation {
        Orientation::Horizontal => (
            quotient(glyphs_width + 2 * TEXT_PADDING, width as int),
            quotient(glyphs_height + 2 * TEXT_PADDING, height as int),
        ),
        Orientation::Vertical => (
            quotient(glyphs_height + 2 * TEXT_PADDING, width as int),
            quotient(glyphs_width + 2 * TEXT_PADDING, height as int),
        ),
    }
}

/// The width and the height of the rectangle of a label on a screen of `width` by
/// `height` pixels.
pub fn text_rectangle(
    glyphs_width: u32,
    glyphs_height: u32,
    width: u32,
    height: u32,
    orientation: Orientation,
) -> (r: (Rational, Rational))
    requires
        width > 0,
        height > 0,
    ensures
        (r.0@, r.1@) == label_extent(glyphs_width, glyphs_height, width, height, orientation),
{
    let across: i64 = glyphs_width as i64 + 2 * (TEXT_PADDING as i64);
    let up: i64 = glyphs_height as i64 + 2 * (TEXT_PADDING as i64);
    match orientation {
        Orientation::Horizontal => (
            Rational::from_ratio(across, width as i64),
            Rational::from_ratio(up, height as i64),
        ),
        Orientation::Vertical => (
            Rational::from_ratio(up, width as i64),
            Rational::from_ratio(across, height as i64),
        ),
    }
}

/// A corner of the rectangle of a label: its place on the screen, and the place in the
/// picture of the letters that is drawn there.
#[derive(Debug)]
pub struct TextVertex {
    pub x: Rational,
    pub y: Rational,
    pub tx: Rational,
    pub ty: Rational,
}

impl View for TextVertex {
    type V = (real, real, real, real);

    open spec fn view(&self) -> (real, real, real, real) {
        (self.x@, self.y@, self.tx@, self.ty@)
    }
}

/// The corners of a rectangle of the given width and height about the centre
/// `(cx, cy)`, as two triangles: bottom left, top left, top right; top right, bottom
/// right, bottom left.
pub open spec fn quad(cx: real, cy: real, width: real, height: real) -> Seq<
    (real, real, real, real),
> {
    seq![
        (cx - width / 2real, cy - height / 2real, 0real, 0real),
        (cx - width / 2real, cy + height / 2real, 0real, 1real),
        (cx + width / 2real, cy + height / 2real, 1real, 1real),
        (cx + width / 2real, cy + height / 2real, 1real, 1real),
        (cx + width / 2real, cy - height / 2real, 1real, 0real),
        (cx - width / 2real, cy - height / 2real, 0real, 0real),
    ]
}

fn text_vertex(x: &Rational, y: &Rational, tx: i64, ty: i64) -> (v: TextVertex)
    ensures
        v@ == (x@, y@, tx as real, ty as real),
{
    TextVertex {
        x: x.duplicate(),
        y: y.duplicate(),
        tx: Rational::from_i64(tx),
        ty: Rational::from_i64(ty),
    }
}

/// The two triangles that the picture of a label is drawn on.
pub fn text_quad(cx: &Rational, cy: &Rational, width: &Rational, height: &Rational) -> (r: Vec<
    TextVertex,
>)
    ensures
        r@.len() == 6,
        forall|i: int| 0 <= i < 6 ==> (#[trigger] r@[i])@ == quad(cx@, cy@, width@, height@)[i],
{
    let two = Rational::from_i64(2);
    let left = cx.sub(&width.div(&two));
    let right = cx.add(&width.div(&two));
    let bottom = cy.sub(&height.div(&two));
    let top = cy.add(&height.div(&two));
    let mut corners: Vec<TextVertex> = Vec::new();
    corners.push(text_vertex(&left, &bottom, 0, 0));
    corners.push(text_vertex(&left, &top, 0, 1));
    corners.push(text_vertex(&right, &top, 1, 1));
    corners.push(text_vertex(&right, &top, 1, 1));
    corners.push(text_vertex(&right, &bottom, 1, 0));
    corners.push(text_vertex(&left, &bottom, 0, 0));
    corners
}

/// Half of the part of `whole` that `inner` leaves free: the distance from the edge of
/// the screen to the middle of the margin round the grid.
pub open spec fn half_margin(whole: u32, inner: u32) -> real {
    quotient(whole - inner, whole as int) / 2real
}

/// The centre of a label on a screen of `width` by `height` pixels whose grid takes
/// `grid_width` by `grid_height` pixels: each label stands in the middle of the margin
/// on its side of the grid, and the mark of zero at the height of the value zero.
pub open spec fn label_centre(
    label: Label,
    width: u32,
    height: u32,
    grid_width: u32,
    grid_height: u32,
    zero_shift: real,
    data_divisions: u32,
) -> (real, real) {
    match label {
        Label::Title => (0real, 1real - half_margin(height, grid_height)),
        Label::DataAxis => (-1real + half_margin(width, grid_width), 0real),
        Label::TimeAxis => (0real, -1real + half_margin(height, grid_height)),
        Label::Zero => (
            1real - half_margin(width, grid_width),
            zero_shift / (data_divisions as real) * (grid_height as real) / (height as real)
                * 2real,
        ),
    }
}

fn margin(whole: u32, inner: u32) -> (r: Rational)
    requires
        whole > 0,
    ensures
        r@ == half_margin(whole, inner),
{
    Rational::from_ratio(whole as i64 - inner as i64, whole as i64).div(&Rational::from_i64(2))
}

/// The centre of a label of the plot.
pub fn label_anchor(
    label: Label,
    width: u32,
    height: u32,
    grid_width: u32,
    grid_height: u32,
    zero_shift: &Rational,
    data_divisions: u32,
) -> (r: (Rational, Rational))
    requires
        width > 0,
        height > 0,
        data_divisions > 0,
    ensures
        (r.0@, r.1@) == label_centre(
            label,
            width,
            height,
            grid_width,
            grid_height,
            zero_shift@,
            data_divisions,
        ),
{
    let zero = Rational::from_i64(0);
    let one = Rational::from_i64(1);
    match label {
        Label::Title => (zero, one.sub(&margin(height, grid_height))),
        Label::DataAxis => (one.neg().add(&margin(width, grid_width)), zero),
        Label::TimeAxis => (zero, one.neg().add(&margin(height, grid_height))),
        Label::Zero => (
            one.sub(&margin(width, grid_width)),
            zero_shift.div(&Rational::from_i64(data_divisions as i64)).mul(
                &Rational::from_i64(grid_height as i64),
            ).div(&Rational::from_i64(height as i64)).mul(&Rational::from_i64(2)),
        ),
    }
}

/// Where in the picture of a label the pixel `(x, y)` of a letter is put, the letter's
/// box beginning at `(min_x, min_y)`: the picture is `glyphs_height` pixels and the
/// padding high, and a label written from left to right is put in upside down, for the
/// screen counts upwards and the letters downwards. There is no place for a pixel left of
/// the picture or above it.
pub open spec fn texel(
    x: u32,
    y: u32,
    min_x: i32,
    min_y: i32,
    glyphs_height: u32,
    orientation: Orientation,
) -> Option<(int, int)> {
    let column = x + min_x;
    let row = match orientation {
        Orientation::Vertical => y + min_y,
        Orientation::Horizontal => glyphs_height + 2 * TEXT_PADDING - (y + min_y),
    };
    if column < 0 || row < 0 {
        None
    } else {
        Some((column, row))
    }
}

/// The column and the row of the picture of a label that a pixel of a letter is put in.
pub fn texel_position(
    x: u32,
    y: u32,
    min_x: i32,
    min_y: i32,
    glyphs_height: u32,
    orientation: Orientation,
) -> (r: Option<(u64, u64)>)
    ensures
        match r {
            Some(place) => texel(x, y, min_x, min_y, glyphs_height, orientation) == Some(
                (place.0 as int, place.1 as int),
            ),
            None => texel(x, y, min_x, min_y, glyphs_height, orientation) is None,
        },
{
    let column: i64 = x as i64 + min_x as i64;
    let down: i64 = y as i64 + min_y as i64;
    let row: i64 = match orientation {
        Orientation::Vertical => down,
        Orientation::Horizontal => glyphs_height as i64 + 2 * (TEXT_PADDING as i64) - down,
    };
    if column < 0 || row < 0 {
        None
    } else {
        Some((column as u64, row as u64))
    }
}

} // verus!
