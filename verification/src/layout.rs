//! Where on the screen the grid is drawn.

use vstd::prelude::*;

verus! {

/// Whether a screen of the given size is wider than a grid of square divisions: whether
/// one division of time gets more pixels than one division of data.
pub open spec fn wider_than_grid(
    width: u32,
    height: u32,
    time_divisions: u32,
    data_divisions: u32,
) -> bool {
    width * data_divisions > time_divisions * height
}

/// The rectangle of the grid on the screen, as the left edge, the lower edge, the width
/// and the height, in pixels.
///
/// The grid fills the screen without the padding in one direction. In the other it is
/// made shorter so that its divisions are square, and is centred; parts of a pixel are
/// dropped.
pub open spec fn grid_rectangle(
    width: u32,
    height: u32,
    padding: u32,
    time_divisions: u32,
    data_divisions: u32,
) -> (int, int, int, int) {
    let inner_width = width - 2 * padding;
    let inner_height = height - 2 * padding;
    if wider_than_grid(width, height, time_divisions, data_divisions) {
        let across = width * data_divisions;
        let scaled = inner_width * (time_divisions * height);
        (
            padding + (inner_width * across - scaled) / (2 * across),
            padding as int,
            scaled / across,
            inner_height,
        )
    } else {
        let up = time_divisions * height;
        let scaled = inner_height * (width * data_divisions);
        (
            padding as int,
            padding + (inner_height * up - scaled) / (2 * up),
            inner_width,
            scaled / up,
        )
    }
}

proof fn lemma_product_bound(a: int, b: int, bound_a: int, bound_b: int)
    by (nonlinear_arith)
    requires
        0 <= a <= bound_a,
        0 <= b <= bound_b,
    ensures
        a * b <= bound_a * bound_b,
{
}

proof fn lemma_quotient_bound(a: int, b: int, c: int)
    by (nonlinear_arith)
    requires
        0 <= a,
        0 <= b <= c,
        0 < c,
    ensures
        0 <= (a * b) / c <= a,
{
}

/// The rectangle of the grid on a screen of `width` by `height` pixels with `padding`
/// pixels left free on every side.
pub fn get_dimensions(
    width: u32,
    height: u32,
    padding: u32,
    time_divisions: u32,
    data_divisions: u32,
) -> (r: (i32, i32, i32, i32))
    requires
        0 < width <= i32::MAX,
        0 < height <= i32::MAX,
        2 * padding <= width,
        2 * padding <= height,
        time_divisions > 0,
        data_divisions > 0,
    ensures
        (r.0 as int, r.1 as int, r.2 as int, r.3 as int) == grid_rectangle(
            width,
            height,
            padding,
            time_divisions,
            data_divisions,
        ),
{
    let inner_width: u128 = (width - 2 * padding) as u128;
    let inner_height: u128 = (height - 2 * padding) as u128;
    proof {
        lemma_product_bound(width as int, data_divisions as int, 0xffff_ffff, 0xffff_ffff);
        lemma_product_bound(time_divisions as int, height as int, 0xffff_ffff, 0xffff_ffff);
    }
    let across: u128 = width as u128 * data_divisions as u128;
    let up: u128 = time_divisions as u128 * height as u128;
    if across > up {
        proof {
            lemma_product_bound(inner_width as int, up as int, 0xffff_ffff, 0xffff_fffe_0000_0001);
            lemma_product_bound(inner_width as int, across as int, 0xffff_ffff, 0xffff_fffe_0000_0001);
            lemma_product_bound(inner_width as int, up as int, inner_width as int, across as int);
        }
        let scaled: u128 = inner_width * up;
        let full: u128 = inner_width * across;
        proof {
            lemma_quotient_bound(inner_width as int, up as int, across as int);
            assert(full - scaled == inner_width * (across - up)) by (nonlinear_arith)
                requires
                    full == inner_width * across,
                    scaled == inner_width * up,
            ;
            lemma_quotient_bound(inner_width as int, (across - up) as int, 2 * across as int);
        }
        let shift: u128 = (full - scaled) / (2 * across);
        ((padding as u128 + shift) as i32, padding as i32, (scaled / across) as i32, inner_height as i32)
    } else {
        proof {
            lemma_product_bound(inner_height as int, across as int, 0xffff_ffff, 0xffff_fffe_0000_0001);
            lemma_product_bound(inner_height as int, up as int, 0xffff_ffff, 0xffff_fffe_0000_0001);
            lemma_product_bound(inner_height as int, across as int, inner_height as int, up as int);
            assert(up > 0) by (nonlinear_arith)
                requires
                    up == time_divisions as u128 * height as u128,
                    time_divisions > 0,
                    height > 0,
            ;
        }
        let scaled: u128 = inner_height * across;
        let full: u128 = inner_height * up;
        proof {
            lemma_quotient_bound(inner_height as int, across as int, up as int);
            assert(full - scaled == inner_height * (up - across)) by (nonlinear_arith)
                requires
                    full == inner_height * up,
                    scaled == inner_height * across,
            ;
            lemma_quotient_bound(inner_height as int, (up - across) as int, 2 * up as int);
        }
        let shift: u128 = (full - scaled) / (2 * up);
        (padding as i32, (padding as u128 + shift) as i32, inner_width as i32, (scaled / up) as i32)
    }
}

} // verus!
