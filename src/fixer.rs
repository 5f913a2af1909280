use vstd::prelude::*;

use crate::grid::{lemma_cell_coordinates, lemma_point_cell, Grid};
use crate::laws::lemma_alpha_preserved;
use crate::pixel::Pixel;

verus! {

/// Column offset of cell `k` (0..9) of the 3x3 block, scanned row-major.
pub open spec fn offset_x(k: int) -> int {
    k % 3 - 1
}

/// Row offset of cell `k` (0..9) of the 3x3 block, scanned row-major.
pub open spec fn offset_y(k: int) -> int {
    k / 3 - 1
}

/// Whether cell `k` of the block around `(x, y)` is an in-bounds neighbour
/// (not the center) that is not transparent.
pub open spec fn is_sample(g: Grid, x: int, y: int, k: int) -> bool {
    let nx = x + offset_x(k);
    let ny = y + offset_y(k);
    k != 4 && g.in_bounds(nx, ny) && !g.pixel_at(nx, ny).is_transparent()
}

/// The non-transparent neighbours among the first `k` cells of the 3x3 block
/// around `(x, y)`, in row-major order.
pub open spec fn samples_upto(g: Grid, x: int, y: int, k: nat) -> Seq<Pixel>
    decreases k,
{
    if k == 0 {
        seq![]
    } else {
        let prev = samples_upto(g, x, y, (k - 1) as nat);
        let j = k - 1;
        if is_sample(g, x, y, j) {
            prev.push(g.pixel_at(x + offset_x(j), y + offset_y(j)))
        } else {
            prev
        }
    }
}

/// The neighbourhood sample set of `(x, y)`: its non-transparent 8-neighbours
/// inside the grid, in row-major order.
pub open spec fn neighbor_samples(g: Grid, x: int, y: int) -> Seq<Pixel> {
    samples_upto(g, x, y, 9)
}

/// Sum of channel `c` over a sequence of pixels.
pub open spec fn channel_sum(s: Seq<Pixel>, c: int) -> int
    decreases s.len(),
{
    if s.len() == 0 {
        0
    } else {
        channel_sum(s.drop_last(), c) + s.last().channel(c)
    }
}

/// Floor of the mean of channel `c` over a non-empty sequence of pixels.
pub open spec fn channel_mean(s: Seq<Pixel>, c: int) -> int {
    channel_sum(s, c) / (s.len() as int)
}

/// The transparent pixel whose color is the per-channel floor mean of `s`.
pub open spec fn mean_color(s: Seq<Pixel>) -> Pixel {
    Pixel {
        r: channel_mean(s, 0) as u8,
        g: channel_mean(s, 1) as u8,
        b: channel_mean(s, 2) as u8,
        a: 0,
    }
}

/// The color inferred for `(x, y)`: the mean of its neighbourhood samples
/// with alpha 0, or `None` when it has no sample.
pub open spec fn nearby_color(g: Grid, x: int, y: int) -> Option<Pixel> {
    let s = neighbor_samples(g, x, y);
    if s.len() == 0 {
        None
    } else {
        Some(mean_color(s))
    }
}

proof fn lemma_channel_sum_bound(s: Seq<Pixel>, c: int)
    ensures
        0 <= channel_sum(s, c) <= 255 * s.len(),
    decreases s.len(),
{
    if s.len() > 0 {
        lemma_channel_sum_bound(s.drop_last(), c);
    }
}

/// The mean of channel `c` over a non-empty sequence is itself a channel value.
pub proof fn lemma_channel_mean_bound(s: Seq<Pixel>, c: int)
    requires
        s.len() > 0,
    ensures
        0 <= channel_mean(s, c) <= 255,
{
    lemma_channel_sum_bound(s, c);
    let t = channel_sum(s, c);
    let n = s.len() as int;
    assert(0 <= t / n <= 255) by (nonlinear_arith)
        requires
            0 <= t <= 255 * n,
            n > 0,
    ;
}

/// Infers a color for the pixel at `point` from its 3x3 neighbourhood: the
/// per-channel floor mean of the non-transparent neighbours inside the grid,
/// with alpha 0, or `None` when there is none.
pub fn interpolate_nearby_non_transparent_pixels(img: &Grid, point: (u32, u32)) -> (res: Option<
    Pixel,
>)
    requires
        img.wf(),
        img.in_bounds(point.0 as int, point.1 as int),
    ensures
        res == nearby_color(*img, point.0 as int, point.1 as int),
{
    let ghost (x, y) = (point.0 as int, point.1 as int);
    let mut sum_r: u32 = 0;
    let mut sum_g: u32 = 0;
    let mut sum_b: u32 = 0;
    let mut count: u32 = 0;
    let mut k: u32 = 0;
    while k < 9
        invariant
            k <= 9,
            img.wf(),
            img.in_bounds(x, y),
            x == point.0,
            y == point.1,
            count as int == samples_upto(*img, x, y, k as nat).len(),
            count <= k,
            sum_r as int == channel_sum(samples_upto(*img, x, y, k as nat), 0),
            sum_g as int == channel_sum(samples_upto(*img, x, y, k as nat), 1),
            sum_b as int == channel_sum(samples_upto(*img, x, y, k as nat), 2),
        decreases 9 - k,
    {
        proof {
            let s = samples_upto(*img, x, y, k as nat);
            lemma_channel_sum_bound(s, 0);
            lemma_channel_sum_bound(s, 1);
            lemma_channel_sum_bound(s, 2);
        }
        let ghost prev = samples_upto(*img, x, y, k as nat);
        // The neighbour of cell k is (nx1 - 1, ny1 - 1); the shift by one keeps
        // the arithmetic unsigned at the top and left edges.
        let dx: u64 = (k % 3) as u64;
        let dy: u64 = (k / 3) as u64;
        let nx1: u64 = point.0 as u64 + dx;
        let ny1: u64 = point.1 as u64 + dy;
        if k != 4 && nx1 >= 1 && ny1 >= 1 && nx1 - 1 < img.width as u64 && ny1 - 1
            < img.height as u64 {
            let nx: u32 = (nx1 - 1) as u32;
            let ny: u32 = (ny1 - 1) as u32;
            let p = img.pixel(nx, ny);
            if p.a != 0 {
                sum_r = sum_r + p.r as u32;
                sum_g = sum_g + p.g as u32;
                sum_b = sum_b + p.b as u32;
                count = count + 1;
                proof {
                    let s = samples_upto(*img, x, y, (k + 1) as nat);
                    assert(s.drop_last() == prev);
                }
            }
        }
        k = k + 1;
    }
    if count == 0 {
        None
    } else {
        proof {
            let s = neighbor_samples(*img, x, y);
            lemma_channel_mean_bound(s, 0);
            lemma_channel_mean_bound(s, 1);
            lemma_channel_mean_bound(s, 2);
        }
        Some(
            Pixel {
                r: (sum_r / count) as u8,
                g: (sum_g / count) as u8,
                b: (sum_b / count) as u8,
                a: 0,
            },
        )
    }
}

/// The output pixel at `(x, y)`: a non-transparent pixel, or a transparent
/// one without neighbourhood samples, is kept as it is; any other gets the
/// color inferred from its neighbours, with alpha 0.
pub open spec fn fixed_pixel(g: Grid, x: int, y: int) -> Pixel {
    let p = g.pixel_at(x, y);
    if !p.is_transparent() {
        p
    } else {
        match nearby_color(g, x, y) {
            Some(c) => c,
            None => p,
        }
    }
}

/// Whether the fix rewrites the pixel at `(x, y)`.
pub open spec fn is_rewritten(g: Grid, x: int, y: int) -> bool {
    g.pixel_at(x, y).is_transparent() && neighbor_samples(g, x, y).len() > 0
}

/// The row-major pixels of the fixed grid.
pub open spec fn fixed_pixels(g: Grid) -> Seq<Pixel> {
    Seq::new(
        g.pixels@.len(),
        |i: int| fixed_pixel(g, i % g.width as int, i / g.width as int),
    )
}

/// Whether the fix rewrites at least one pixel of `g`.
pub open spec fn any_rewritten(g: Grid) -> bool {
    exists|x: int, y: int| g.in_bounds(x, y) && #[trigger] is_rewritten(g, x, y)
}

/// Runs one neighbourhood pass over `img`: returns a fresh grid of the same
/// size in which each transparent pixel with non-transparent neighbours takes
/// their mean color (alpha stays 0), and whether any pixel was rewritten.
/// Every sample is read from `img`, never from the partly built output.
pub fn fix_transparent_pixels(img: &Grid) -> (res: (Grid, bool))
    requires
        img.wf(),
    ensures
        res.0.wf(),
        res.0.width == img.width,
        res.0.height == img.height,
        res.0.pixels@ == fixed_pixels(*img),
        forall|i: int|
            0 <= i < img.pixels@.len() ==> (#[trigger] res.0.pixels@[i]).a == img.pixels@[i].a,
        res.1 == any_rewritten(*img),
{
    let n: usize = img.pixels.len();
    let ghost w = img.width as int;
    let mut out: Vec<Pixel> = Vec::with_capacity(n);
    let mut modified = false;
    let mut i: usize = 0;
    while i < n
        invariant
            i <= n,
            n == img.pixels@.len(),
            img.wf(),
            w == img.width,
            out@.len() == i,
            forall|j: int| 0 <= j < i ==> out@[j] == #[trigger] fixed_pixel(*img, j % w, j / w),
            modified == exists|j: int| 0 <= j < i && #[trigger] is_rewritten(*img, j % w, j / w),
        decreases n - i,
    {
        proof {
            lemma_cell_coordinates(img, i as int);
        }
        let x: u32 = (i % img.width as usize) as u32;
        let y: u32 = (i / img.width as usize) as u32;
        let p = img.pixels[i];
        if p.a != 0 {
            out.push(p);
        } else {
            match interpolate_nearby_non_transparent_pixels(img, (x, y)) {
                Some(c) => {
                    modified = true;
                    out.push(c);
                },
                None => {
                    out.push(p);
                },
            }
        }
        assert(is_rewritten(*img, x as int, y as int) ==> modified);
        i = i + 1;
    }
    proof {
        if modified {
            let j = choose|j: int| 0 <= j < n && #[trigger] is_rewritten(*img, j % w, j / w);
            lemma_cell_coordinates(img, j);
            assert(img.in_bounds(j % w, j / w));
        }
        if any_rewritten(*img) {
            let (x, y) = choose|x: int, y: int| img.in_bounds(x, y) && #[trigger] is_rewritten(*img, x, y);
            lemma_point_cell(img, x, y);
            let j = img.index_of(x, y);
            assert(is_rewritten(*img, j % w, j / w));
        }
        assert(out@ =~= fixed_pixels(*img));
        lemma_alpha_preserved(*img);
    }
    (Grid { width: img.width, height: img.height, pixels: out }, modified)
}

} // verus!
