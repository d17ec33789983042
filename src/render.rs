//! Raster bookkeeping of a render: the order in which pixels are visited, where
//! each lands in the framebuffer, which generator words jitter each sample, and
//! the flattening of the framebuffer into the byte buffer an image encoder takes.
//!
//! Pixels are visited scene row by scene row from the top (`row == height - 1`,
//! the highest viewport `v`) down to `row == 0`, each row from column 0 to the
//! right. Framebuffer row 0 is the top of the image, so the `k`-th visited pixel
//! lands at framebuffer index `k`.
use vstd::prelude::*;
use vstd::arithmetic::div_mod::lemma_fundamental_div_mod;
use crate::rand::{Xorshift, state_after, step, draw, combine, unit_bits};

verus! {

/// Scene row (0 at the bottom of the viewport) of the `k`-th visited pixel.
pub open spec fn scan_row(width: nat, height: nat, k: nat) -> int {
    height - 1 - k / width
}

/// Column of the `k`-th visited pixel.
pub open spec fn scan_col(width: nat, k: nat) -> int {
    (k % width) as int
}

/// Framebuffer index of the pixel at scene row `row` and column `col`:
/// framebuffer row 0 holds the top scene row.
pub open spec fn index_of(width: nat, height: nat, row: int, col: int) -> int {
    (height - 1 - row) * width + col
}

/// The bit pattern of a double in `[1, 2)` that the generator hands out after
/// `n` steps from state `s`.
pub open spec fn unit_bits_at(s: (u32, u32, u32, u32), n: nat) -> u64 {
    unit_bits(combine(draw(state_after(s, n)), draw(state_after(s, n + 1))))
}

/// Generator steps taken per pixel: two unit draws of two steps each per sample.
pub open spec fn steps_per_pixel(samples: nat) -> nat {
    4 * samples
}

/// The jitter words of the `k`-th visited pixel, for a render whose generator
/// started in state `s`: for sample `m`, word `2m` jitters `u` and word `2m + 1`
/// jitters `v`.
pub open spec fn pixel_jitter(s: (u32, u32, u32, u32), samples: nat, k: nat) -> Seq<u64> {
    Seq::new(2 * samples, |q: int| unit_bits_at(s, steps_per_pixel(samples) * k + 2 * q as nat))
}

/// `value` is what `shade` may return for the `k`-th visited pixel of a
/// `width` by `height` render with `samples` samples per pixel, whose generator
/// started in state `s`.
pub open spec fn shaded<C, F: Fn(usize, usize, &Vec<u64>) -> C>(
    shade: F,
    s: (u32, u32, u32, u32),
    samples: nat,
    width: nat,
    height: nat,
    k: nat,
    value: C,
) -> bool {
    exists|jitter: Vec<u64>|
        jitter@ == pixel_jitter(s, samples, k) && #[trigger] shade.ensures(
            (scan_row(width, height, k) as usize, scan_col(width, k) as usize, &jitter),
            value,
        )
}

/// One unit draw after `n` steps leaves the generator `n + 2` steps on.
proof fn lemma_unit_draw_steps(s: (u32, u32, u32, u32), n: nat)
    ensures
        state_after(state_after(s, n), 2) == state_after(s, n + 2),
        step(state_after(s, n)) == state_after(s, n + 1),
{
    reveal_with_fuel(state_after, 3);
    assert(state_after(s, n + 2) == step(state_after(s, n + 1)));
    assert(state_after(s, n + 1) == step(state_after(s, n)));
}

/// Orientation of the framebuffer: the visited pixel `k` lies inside the image
/// and lands at index `k`; scene rows never rise as the visit goes on; the first
/// framebuffer row (the top of the image) holds the top scene row.
pub proof fn lemma_scan_orientation(width: nat, height: nat, k: nat, k2: nat)
    requires
        k <= k2 < width * height,
    ensures
        0 <= scan_row(width, height, k) < height,
        0 <= scan_col(width, k) < width,
        index_of(width, height, scan_row(width, height, k), scan_col(width, k)) == k,
        scan_row(width, height, k2) <= scan_row(width, height, k),
        k < width ==> scan_row(width, height, k) == height - 1,
{
    assert(width > 0) by (nonlinear_arith)
        requires
            k2 < width * height,
    ;
    lemma_fundamental_div_mod(k as int, width as int);
    lemma_fundamental_div_mod(k2 as int, width as int);
    let q = k as int / width as int;
    let r = k as int % width as int;
    let q2 = k2 as int / width as int;
    let r2 = k2 as int % width as int;
    assert(0 <= r < width && 0 <= r2 < width);
    assert(0 <= q);
    assert(q < height) by (nonlinear_arith)
        requires
            k == width * q + r,
            0 <= r,
            k < width * height,
            width > 0,
    ;
    assert(q <= q2) by (nonlinear_arith)
        requires
            k == width * q + r,
            k2 == width * q2 + r2,
            0 <= r < width,
            0 <= r2 < width,
            k <= k2,
    ;
    assert(k < width ==> q == 0) by (nonlinear_arith)
        requires
            k == width * q + r,
            0 <= r,
            0 <= q,
    ;
    assert(index_of(width, height, scan_row(width, height, k), scan_col(width, k)) == q * width + r);
    assert(q * width == width * q) by (nonlinear_arith);
}

/// Renders a `width` by `height` image with `samples` jittered samples per pixel.
///
/// Pixels are visited in scan order (see the module comment), and the
/// generator is advanced in strict visit-then-sample order. For each pixel,
/// `shade(row, col, jitter)` receives the pixel's scene row and column and the
/// `2 * samples` unit-double bit patterns drawn for it (`u` then `v` for each
/// sample), and returns the pixel's value, which is stored at the pixel's
/// framebuffer index.
pub fn ray_trace<C, F: Fn(usize, usize, &Vec<u64>) -> C>(
    width: usize,
    height: usize,
    samples: usize,
    rng: &mut Xorshift,
    shade: F,
) -> (r: Vec<C>)
    requires
        width * height <= usize::MAX,
        forall|row: usize, col: usize, jitter: &Vec<u64>|
            row < height && col < width && jitter@.len() == 2 * samples ==> #[trigger] shade.requires(
                (row, col, jitter),
            ),
    ensures
        r@.len() == width * height,
        final(rng)@ == state_after(old(rng)@, steps_per_pixel(samples as nat) * (width * height) as nat),
        forall|k: int|
            0 <= k < width * height ==> shaded(
                shade,
                old(rng)@,
                samples as nat,
                width as nat,
                height as nat,
                k as nat,
                #[trigger] r@[k],
            ),
{
    let ghost s0 = rng@;
    let ghost per = steps_per_pixel(samples as nat);
    let total = width * height;
    let mut pixels: Vec<C> = Vec::new();
    let mut k: usize = 0;
    while k < total
        invariant
            total == width * height,
            k <= total,
            pixels@.len() == k,
            per == steps_per_pixel(samples as nat),
            rng@ == state_after(s0, per * k as nat),
            forall|row: usize, col: usize, jitter: &Vec<u64>|
                row < height && col < width && jitter@.len() == 2 * samples ==> #[trigger] shade.requires(
                    (row, col, jitter),
                ),
            forall|p: int|
                0 <= p < k ==> shaded(
                    shade,
                    s0,
                    samples as nat,
                    width as nat,
                    height as nat,
                    p as nat,
                    #[trigger] pixels@[p],
                ),
        decreases total - k,
    {
        proof {
            lemma_scan_orientation(width as nat, height as nat, k as nat, k as nat);
        }
        let row = height - 1 - k / width;
        let col = k % width;
        let ghost base: nat = per * k as nat;
        let mut jitter: Vec<u64> = Vec::new();
        let mut m: usize = 0;
        while m < samples
            invariant
                m <= samples,
                jitter@.len() == 2 * m,
                rng@ == state_after(s0, (base + 4 * m) as nat),
                forall|q: int| 0 <= q < 2 * m ==> #[trigger] jitter@[q] == unit_bits_at(s0, base + 2 * q as nat),
            decreases samples - m,
        {
            let ju = rng.gen_f64_bits();
            proof {
                lemma_unit_draw_steps(s0, (base + 4 * m) as nat);
            }
            let jv = rng.gen_f64_bits();
            proof {
                lemma_unit_draw_steps(s0, (base + 4 * m + 2) as nat);
            }
            jitter.push(ju);
            jitter.push(jv);
            m += 1;
        }
        assert(jitter@ == pixel_jitter(s0, samples as nat, k as nat));
        assert(shade.requires((row, col, &jitter)));
        let value = shade(row, col, &jitter);
        pixels.push(value);
        proof {
            assert(base + 4 * samples == per * (k + 1) as nat) by (nonlinear_arith)
                requires
                    base == per * k as nat,
                    per == 4 * samples,
            ;
            assert(shade.ensures(
                (
                    scan_row(width as nat, height as nat, k as nat) as usize,
                    scan_col(width as nat, k as nat) as usize,
                    &jitter,
                ),
                pixels@[k as int],
            ));
            assert(shaded(shade, s0, samples as nat, width as nat, height as nat, k as nat, pixels@[k as int]));
        }
        k += 1;
    }
    pixels
}

/// Flattens RGB pixels into bytes: three per pixel, red, green, blue, in
/// framebuffer order.
pub fn pixels_to_buffer(pixels: &Vec<(u8, u8, u8)>) -> (r: Vec<u8>)
    requires
        3 * pixels@.len() <= usize::MAX,
    ensures
        r@.len() == 3 * pixels@.len(),
        forall|p: int|
            0 <= p < pixels@.len() ==> r@[3 * p] == (#[trigger] pixels@[p]).0 && r@[3 * p + 1]
                == pixels@[p].1 && r@[3 * p + 2] == pixels@[p].2,
{
    let mut buf: Vec<u8> = Vec::new();
    let mut i: usize = 0;
    while i < pixels.len()
        invariant
            i <= pixels@.len(),
            buf@.len() == 3 * i,
            forall|p: int|
                0 <= p < i ==> buf@[3 * p] == (#[trigger] pixels@[p]).0 && buf@[3 * p + 1]
                    == pixels@[p].1 && buf@[3 * p + 2] == pixels@[p].2,
        decreases pixels@.len() - i,
    {
        let (red, green, blue) = pixels[i];
        buf.push(red);
        buf.push(green);
        buf.push(blue);
        i += 1;
    }
    buf
}

} // verus!
