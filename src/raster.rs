//! The order in which pixels are written: rows from the top of the image to
//! the bottom, each row from left to right. Rows are numbered from the
//! bottom, as the camera's vertical image coordinate grows upwards.
use vstd::prelude::*;
use vstd::arithmetic::div_mod::{lemma_fundamental_div_mod, lemma_fundamental_div_mod_converse};
use vstd::arithmetic::mul::lemma_mul_inequality;

verus! {

/// Column and row of the pixel written at position `index`.
pub open spec fn pixel_spec(width: nat, height: nat, index: nat) -> (nat, nat) {
    (index % width, (height - 1 - index / width) as nat)
}

/// Position in the stream of the pixel at `col`, `row`.
pub open spec fn index_spec(width: nat, height: nat, col: nat, row: nat) -> nat {
    ((height - 1 - row) * width + col) as nat
}

/// Column and row of the pixel written at position `index` of an image
/// `width` pixels wide and `height` high.
pub fn pixel_at(width: u32, height: u32, index: u64) -> (r: (u32, u32))
    requires
        index < width * height,
    ensures
        r.0 == index as nat % width as nat,
        r.1 == height - 1 - index as nat / width as nat,
        (r.0 as nat, r.1 as nat) == pixel_spec(width as nat, height as nat, index as nat),
{
    proof {
        lemma_scan_order(width as nat, height as nat, index as nat);
    }
    let w: u64 = width as u64;
    let col: u64 = index % w;
    let down: u64 = index / w;
    assert(down < height);
    let row: u32 = height - 1 - down as u32;
    (col as u32, row)
}

/// The scan order writes each pixel of the image once: the position of
/// every pixel of the grid is in the stream and leads back to that pixel,
/// and every position of the stream names a pixel of the grid whose
/// position it is.
pub proof fn lemma_scan_order(width: nat, height: nat, index: nat)
    requires
        index < width * height,
    ensures
        index / width < height,
        pixel_spec(width, height, index).0 < width,
        pixel_spec(width, height, index).1 < height,
        index_spec(width, height, pixel_spec(width, height, index).0, pixel_spec(width, height, index).1) == index,
{
    let w = width as int;
    let i = index as int;
    assert(w > 0) by (nonlinear_arith)
        requires
            i < w * (height as int),
            0 <= i,
    ;
    lemma_fundamental_div_mod(i, w);
    let q = i / w;
    assert(q < height) by (nonlinear_arith)
        requires
            i == w * q + i % w,
            0 <= i % w,
            i < w * (height as int),
            w > 0,
    ;
    assert(((height - 1 - (height - 1 - q)) * w + i % w) == i) by (nonlinear_arith)
        requires
            i == w * q + i % w,
    ;
}

/// Every pixel of the grid has a position in the stream, and that position
/// names it.
pub proof fn lemma_scan_covers(width: nat, height: nat, col: nat, row: nat)
    requires
        col < width,
        row < height,
    ensures
        index_spec(width, height, col, row) < width * height,
        pixel_spec(width, height, index_spec(width, height, col, row)) == (col, row),
{
    let w = width as int;
    let d = (height - 1 - row) as int;
    let i = d * w + col;
    assert(i < w * (height as int)) by (nonlinear_arith)
        requires
            i == d * w + col,
            col < w,
            0 <= d < height,
    ;
    lemma_fundamental_div_mod_converse(i, w, d, col as int);
}

} // verus!
