//! The pixel estimator's integer side: the render options, the order in which
//! pixels are visited, where each lands in the image, and the clamp of a
//! gamma-corrected channel to `[0, 1]`.
use vstd::prelude::*;
use crate::order::{lt, less, ZERO_BITS, ONE_BITS};

verus! {

/// How many samples each pixel averages, and how many bounces a path may take.
#[derive(Clone, Copy, Debug, PartialEq, Eq, Structural)]
pub struct RenderOptions {
    pub samples: u32,
    pub max_bounces: u32,
}

impl RenderOptions {
    pub fn new(samples: u32, max_bounces: u32) -> (r: RenderOptions)
        ensures
            r.samples == samples,
            r.max_bounces == max_bounces,
    {
        RenderOptions { samples, max_bounces }
    }
}

/// The pixels of a `width` by `height` render as `(row, col)` pairs, row by
/// row from the bottom row up, each row from left to right.
pub fn pixel_order(width: u32, height: u32) -> (r: Vec<(u32, u32)>)
    requires
        width as nat * height as nat <= usize::MAX as nat,
    ensures
        r@.len() == width as nat * height as nat,
        forall|row: int, col: int| 0 <= row < height && 0 <= col < width ==>
            #[trigger] r@[row * width + col] == (row as u32, col as u32),
{
    let mut r: Vec<(u32, u32)> = Vec::new();
    let mut row: u32 = 0;
    while row < height
        invariant
            row <= height,
            width as nat * height as nat <= usize::MAX as nat,
            r@.len() == row as nat * width as nat,
            forall|y: int, x: int| 0 <= y < row && 0 <= x < width ==>
                #[trigger] r@[y * width + x] == (y as u32, x as u32),
        decreases height - row,
    {
        let mut col: u32 = 0;
        proof {
            assert((row as nat + 1) * (width as nat) <= (width as nat) * (height as nat)) by (nonlinear_arith)
                requires row < height;
        }
        while col < width
            invariant
                row < height,
                col <= width,
                (row as nat + 1) * width as nat <= usize::MAX as nat,
                r@.len() == row as nat * width as nat + col as nat,
                forall|y: int, x: int| 0 <= y < row && 0 <= x < width ==>
                    #[trigger] r@[y * width + x] == (y as u32, x as u32),
                forall|x: int| 0 <= x < col ==> #[trigger] r@[row * width + x] == (row, x as u32),
            decreases width - col,
        {
            proof {
                assert((row as nat) * (width as nat) + (col as nat) < (row as nat + 1) * (width as nat)) by (nonlinear_arith)
                    requires col < width;
            }
            let ghost before = r@;
            r.push((row, col));
            proof {
                assert forall|y: int, x: int| 0 <= y < row && 0 <= x < width implies
                    #[trigger] r@[y * width + x] == (y as u32, x as u32) by {
                    assert(y * width + x < row * width) by (nonlinear_arith)
                        requires 0 <= y < row, 0 <= x < width;
                    assert(r@[y * width + x] == before[y * width + x]);
                }
            }
            col = col + 1;
        }
        proof {
            assert forall|y: int, x: int| 0 <= y < row + 1 && 0 <= x < width implies
                #[trigger] r@[y * width + x] == (y as u32, x as u32) by {
                if y == row {
                    assert(r@[row * width + x] == (row, x as u32));
                }
            }
            assert(r@.len() == (row as nat + 1) * width as nat) by (nonlinear_arith)
                requires r@.len() == row as nat * width as nat + width as nat;
        }
        row = row + 1;
    }
    proof {
        assert((height as nat) * (width as nat) == (width as nat) * (height as nat)) by (nonlinear_arith);
    }
    r
}

/// The seed of the random source of one sample: samples are numbered pixel by
/// pixel, `pixel * samples + sample`, so that a render is reproducible.
pub fn sample_seed(pixel: u64, samples: u32, sample: u32) -> (r: u64)
    requires
        sample < samples,
        pixel as nat * samples as nat + sample as nat <= u64::MAX as nat,
    ensures
        r as nat == pixel as nat * samples as nat + sample as nat,
{
    pixel * samples as u64 + sample as u64
}

/// Distinct samples, of one pixel or of two, get distinct seeds.
pub proof fn lemma_seeds_distinct(p1: nat, a1: nat, p2: nat, a2: nat, samples: nat)
    requires
        a1 < samples,
        a2 < samples,
        p1 != p2 || a1 != a2,
    ensures
        p1 * samples + a1 != p2 * samples + a2,
{
    if p1 == p2 {
    } else if p1 < p2 {
        assert(p1 * samples + a1 < p2 * samples + a2) by (nonlinear_arith)
            requires p1 < p2, a1 < samples;
    } else {
        assert(p2 * samples + a2 < p1 * samples + a1) by (nonlinear_arith)
            requires p2 < p1, a2 < samples;
    }
}

/// Where the pixel of row `row` (counted from the bottom) lands in an image
/// whose rows are stored from the top: `(col, height - 1 - row)`.
pub fn image_position(row: u32, col: u32, height: u32) -> (r: (u32, u32))
    requires
        row < height,
    ensures
        r == (col, (height - 1 - row) as u32),
{
    (col, height - 1 - row)
}

/// The value that clamping to `[0, 1]` gives, as a bit pattern.
pub open spec fn clamp_unit_spec(bits: u64) -> u64 {
    if lt(bits, ZERO_BITS) {
        ZERO_BITS
    } else if lt(ONE_BITS, bits) {
        ONE_BITS
    } else {
        bits
    }
}

/// Clamps a channel to `[0, 1]` before it is scaled to the output depth.
pub fn clamp_unit(bits: u64) -> (r: u64)
    ensures
        r == clamp_unit_spec(bits),
{
    if less(bits, ZERO_BITS) {
        ZERO_BITS
    } else if less(ONE_BITS, bits) {
        ONE_BITS
    } else {
        bits
    }
}

} // verus!
