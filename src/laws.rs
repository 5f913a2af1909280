use vstd::prelude::*;

use crate::fixer::{
    any_rewritten, channel_sum, fixed_pixel, fixed_pixels, is_sample, mean_color,
    neighbor_samples, offset_x, offset_y, samples_upto,
};
use crate::grid::{lemma_cell_coordinates, lemma_point_cell, Grid};
use crate::pixel::Pixel;

verus! {

/// The fix keeps the alpha of every pixel.
pub proof fn lemma_alpha_preserved(g: Grid)
    requires
        g.wf(),
    ensures
        fixed_pixels(g).len() == g.pixels@.len(),
        forall|i: int|
            0 <= i < g.pixels@.len() ==> (#[trigger] fixed_pixels(g)[i]).a == g.pixels@[i].a,
{
    assert forall|i: int| 0 <= i < g.pixels@.len() implies (
    #[trigger] fixed_pixels(g)[i]).a == g.pixels@[i].a by {
        lemma_cell_coordinates(&g, i);
    }
}

/// In a grid whose non-transparent pixels are those of `g`, with the same
/// colors, every point has the same neighbourhood samples as in `g`.
proof fn lemma_same_samples(g: Grid, h: Grid, x: int, y: int, k: nat)
    requires
        g.width == h.width,
        g.height == h.height,
        forall|nx: int, ny: int|
            g.in_bounds(nx, ny) ==> (#[trigger] h.pixel_at(nx, ny)).a == g.pixel_at(nx, ny).a,
        forall|nx: int, ny: int|
            g.in_bounds(nx, ny) && !g.pixel_at(nx, ny).is_transparent() ==> #[trigger] h.pixel_at(
                nx,
                ny,
            ) == g.pixel_at(nx, ny),
    ensures
        samples_upto(h, x, y, k) == samples_upto(g, x, y, k),
    decreases k,
{
    if k > 0 {
        lemma_same_samples(g, h, x, y, (k - 1) as nat);
        let j = k - 1;
        let (nx, ny) = (x + offset_x(j), y + offset_y(j));
        if g.in_bounds(nx, ny) {
            assert(h.pixel_at(nx, ny).a == g.pixel_at(nx, ny).a);
        }
        assert(is_sample(h, x, y, j) == is_sample(g, x, y, j));
    }
}

/// Running the fix on its own output changes nothing: the non-transparent
/// pixels, which alone supply colors, are the same in both passes, so every
/// transparent pixel infers the same color again.
pub proof fn lemma_fix_idempotent(g: Grid, once: Grid)
    requires
        g.wf(),
        once.width == g.width,
        once.height == g.height,
        once.pixels@ == fixed_pixels(g),
    ensures
        once.wf(),
        fixed_pixels(once) == fixed_pixels(g),
{
    lemma_alpha_preserved(g);
    assert forall|nx: int, ny: int| g.in_bounds(nx, ny) implies #[trigger] once.pixel_at(nx, ny)
        == fixed_pixel(g, nx, ny) by {
        lemma_point_cell(&g, nx, ny);
    }
    assert forall|x: int, y: int| g.in_bounds(x, y) implies neighbor_samples(once, x, y)
        == neighbor_samples(g, x, y) by {
        lemma_same_samples(g, once, x, y, 9);
    }
    assert forall|i: int| 0 <= i < g.pixels@.len() implies #[trigger] fixed_pixels(once)[i]
        == fixed_pixels(g)[i] by {
        lemma_cell_coordinates(&g, i);
        let (x, y) = (i % g.width as int, i / g.width as int);
        assert(neighbor_samples(once, x, y) == neighbor_samples(g, x, y));
    }
    assert(fixed_pixels(once) =~= fixed_pixels(g));
}

/// A transparent pixel with exactly one non-transparent neighbour takes that
/// neighbour's color, with alpha 0.
pub proof fn lemma_single_neighbor_color(g: Grid, x: int, y: int)
    requires
        g.wf(),
        g.in_bounds(x, y),
        g.pixel_at(x, y).is_transparent(),
        neighbor_samples(g, x, y).len() == 1,
    ensures
        ({
            let c = neighbor_samples(g, x, y)[0];
            fixed_pixel(g, x, y) == (Pixel { r: c.r, g: c.g, b: c.b, a: 0 })
        }),
{
    let s = neighbor_samples(g, x, y);
    assert(s.drop_last().len() == 0);
    assert(s.last() == s[0]);
    assert(channel_sum(s.drop_last(), 0) == 0);
    assert(channel_sum(s.drop_last(), 1) == 0);
    assert(channel_sum(s.drop_last(), 2) == 0);
    assert(channel_sum(s, 0) == s[0].r as int);
    assert(channel_sum(s, 1) == s[0].g as int);
    assert(channel_sum(s, 2) == s[0].b as int);
    assert(mean_color(s) == (Pixel { r: s[0].r, g: s[0].g, b: s[0].b, a: 0 }));
}

proof fn lemma_no_samples(g: Grid, x: int, y: int, k: nat)
    requires
        forall|j: int| 0 <= j < k ==> !#[trigger] is_sample(g, x, y, j),
    ensures
        samples_upto(g, x, y, k).len() == 0,
    decreases k,
{
    if k > 0 {
        lemma_no_samples(g, x, y, (k - 1) as nat);
        assert(!is_sample(g, x, y, k - 1));
    }
}

/// A transparent pixel whose eight neighbours are all transparent or outside
/// the grid is kept exactly as it is.
pub proof fn lemma_isolated_pixel_unchanged(g: Grid, x: int, y: int)
    requires
        g.wf(),
        g.in_bounds(x, y),
        g.pixel_at(x, y).is_transparent(),
        forall|dx: int, dy: int|
            -1 <= dx <= 1 && -1 <= dy <= 1 && (dx, dy) != (0int, 0int) && g.in_bounds(
                x + dx,
                y + dy,
            ) ==> (#[trigger] g.pixel_at(x + dx, y + dy)).is_transparent(),
    ensures
        fixed_pixel(g, x, y) == g.pixel_at(x, y),
{
    assert forall|j: int| 0 <= j < 9 implies !#[trigger] is_sample(g, x, y, j) by {
        let (dx, dy) = (offset_x(j), offset_y(j));
        if j != 4 && g.in_bounds(x + dx, y + dy) {
            assert(g.pixel_at(x + dx, y + dy).is_transparent());
        }
    }
    lemma_no_samples(g, x, y, 9);
}

/// A grid without transparent pixels is not rewritten by the fix.
pub proof fn lemma_opaque_grid_unmodified(g: Grid)
    requires
        g.wf(),
        forall|i: int| 0 <= i < g.pixels@.len() ==> !(#[trigger] g.pixels@[i]).is_transparent(),
    ensures
        !any_rewritten(g),
{
    assert forall|x: int, y: int| g.in_bounds(x, y) implies !g.pixel_at(x, y).is_transparent() by {
        lemma_point_cell(&g, x, y);
    }
}

} // verus!
