use vstd::prelude::*;

use crate::pixel::Pixel;
use vstd::arithmetic::div_mod::{
    lemma_fundamental_div_mod, lemma_fundamental_div_mod_converse, lemma_mod_pos_bound,
};

verus! {

/// A row-major image of `width * height` pixels; the pixel at column `x` and
/// row `y` is `pixels[y * width + x]`.
#[derive(Clone, Debug)]
pub struct Grid {
    pub width: u32,
    pub height: u32,
    pub pixels: Vec<Pixel>,
}

impl Grid {
    /// The grid holds exactly one pixel per cell.
    pub open spec fn wf(&self) -> bool {
        self.pixels@.len() == self.width as int * self.height as int
    }

    pub open spec fn in_bounds(&self, x: int, y: int) -> bool {
        0 <= x < self.width && 0 <= y < self.height
    }

    pub open spec fn index_of(&self, x: int, y: int) -> int {
        y * self.width + x
    }

    pub open spec fn pixel_at(&self, x: int, y: int) -> Pixel {
        self.pixels@[self.index_of(x, y)]
    }

    /// Builds a grid from row-major pixels; `None` when their number is not
    /// `width * height`.
    pub fn new(width: u32, height: u32, pixels: Vec<Pixel>) -> (res: Option<Grid>)
        ensures
            res.is_some() == (pixels@.len() == width as int * height as int),
            res matches Some(g) ==> g.width == width && g.height == height && g.pixels@
                == pixels@,
    {
        proof {
            let (w, h) = (width as int, height as int);
            assert(0 <= w * h <= 0xffff_ffff * 0xffff_ffff) by (nonlinear_arith)
                requires
                    0 <= w <= 0xffff_ffff,
                    0 <= h <= 0xffff_ffff,
            ;
        }
        let n: u64 = width as u64 * height as u64;
        if pixels.len() as u64 == n {
            Some(Grid { width, height, pixels })
        } else {
            None
        }
    }

    /// Builds a grid from row-major R, G, B, A bytes; `None` when their
    /// number is not `4 * width * height`.
    pub fn from_rgba_bytes(width: u32, height: u32, bytes: &Vec<u8>) -> (res: Option<Grid>)
        ensures
            res.is_some() == (bytes@.len() == 4 * (width as int * height as int)),
            res matches Some(g) ==> g.wf() && g.width == width && g.height == height
                && g.pixels@ == pixels_of_rgba(bytes@),
    {
        let n: usize = bytes.len() / 4;
        if bytes.len() % 4 != 0 {
            return None;
        }
        let mut pixels: Vec<Pixel> = Vec::with_capacity(n);
        let mut i: usize = 0;
        while i < n
            invariant
                n == bytes@.len() / 4,
                bytes@.len() % 4 == 0,
                bytes@.len() <= usize::MAX,
                i <= n,
                pixels@.len() == i,
                forall|k: int| 0 <= k < i ==> #[trigger] pixels@[k] == pixels_of_rgba(bytes@)[k],
            decreases n - i,
        {
            let j: usize = 4 * i;
            pixels.push(Pixel { r: bytes[j], g: bytes[j + 1], b: bytes[j + 2], a: bytes[j + 3] });
            i = i + 1;
        }
        proof {
            assert(pixels@ =~= pixels_of_rgba(bytes@));
        }
        Grid::new(width, height, pixels)
    }

    /// The grid's pixels as row-major R, G, B, A bytes.
    pub fn to_rgba_bytes(&self) -> (res: Vec<u8>)
        ensures
            res@ == rgba_bytes(self.pixels@),
    {
        let n: usize = self.pixels.len();
        let mut out: Vec<u8> = Vec::new();
        let mut i: usize = 0;
        while i < n
            invariant
                n == self.pixels@.len(),
                i <= n,
                out@.len() == 4 * i,
                forall|j: int| 0 <= j < 4 * i ==> #[trigger] out@[j] == rgba_bytes(self.pixels@)[j],
            decreases n - i,
        {
            let p = self.pixels[i];
            out.push(p.r);
            out.push(p.g);
            out.push(p.b);
            out.push(p.a);
            proof {
                assert forall|j: int| 4 * i <= j < 4 * i + 4 implies #[trigger] out@[j] == rgba_bytes(
                    self.pixels@,
                )[j] by {
                    assert(j / 4 == i as int && j % 4 == j - 4 * i);
                }
            }
            i = i + 1;
        }
        proof {
            assert(out@ =~= rgba_bytes(self.pixels@));
        }
        out
    }

    pub fn width(&self) -> (r: u32)
        ensures
            r == self.width,
    {
        self.width
    }

    pub fn height(&self) -> (r: u32)
        ensures
            r == self.height,
    {
        self.height
    }

    /// The pixel at column `x`, row `y`.
    pub fn pixel(&self, x: u32, y: u32) -> (p: Pixel)
        requires
            self.wf(),
            self.in_bounds(x as int, y as int),
        ensures
            p == self.pixel_at(x as int, y as int),
    {
        let n: usize = self.pixels.len();
        proof {
            lemma_index_in_bounds(self, x as int, y as int);
            assert(self.index_of(x as int, y as int) < n);
            let w = self.width as int;
            assert(0 <= y as int * w <= y as int * w + x as int) by (nonlinear_arith)
                requires
                    0 <= x,
                    0 <= y,
                    0 <= w,
            ;
        }
        self.pixels[y as usize * self.width as usize + x as usize]
    }
}

/// Channel `c` (0..4, in R, G, B, A order) of a pixel.
pub open spec fn rgba_channel(p: Pixel, c: int) -> u8 {
    if c == 3 {
        p.a
    } else {
        p.channel(c)
    }
}

/// Pixels laid out as consecutive R, G, B, A bytes.
pub open spec fn rgba_bytes(s: Seq<Pixel>) -> Seq<u8> {
    Seq::new(4 * s.len(), |j: int| rgba_channel(s[j / 4], j % 4))
}

/// Consecutive groups of four bytes read as R, G, B, A pixels.
pub open spec fn pixels_of_rgba(b: Seq<u8>) -> Seq<Pixel> {
    Seq::new(
        b.len() / 4,
        |i: int| Pixel { r: b[4 * i], g: b[4 * i + 1], b: b[4 * i + 2], a: b[4 * i + 3] },
    )
}

/// The cell index of an in-bounds point lies within the grid.
pub proof fn lemma_index_in_bounds(g: &Grid, x: int, y: int)
    requires
        g.wf(),
        g.in_bounds(x, y),
    ensures
        0 <= g.index_of(x, y) < g.pixels@.len(),
{
    let w = g.width as int;
    let h = g.height as int;
    assert(0 <= y * w + x < w * h) by (nonlinear_arith)
        requires
            0 <= x < w,
            0 <= y < h,
    ;
}

/// Cell `i` of a well-formed grid lies at column `i % width`, row `i / width`.
pub proof fn lemma_cell_coordinates(g: &Grid, i: int)
    requires
        g.wf(),
        0 <= i < g.pixels@.len(),
    ensures
        g.width > 0,
        g.in_bounds(i % g.width as int, i / g.width as int),
        g.index_of(i % g.width as int, i / g.width as int) == i,
{
    let w = g.width as int;
    let h = g.height as int;
    assert(w > 0) by (nonlinear_arith)
        requires
            0 <= i < w * h,
            0 <= w,
            0 <= h,
    ;
    lemma_fundamental_div_mod(i, w);
    lemma_mod_pos_bound(i, w);
    let q = i / w;
    assert(0 <= q < h) by (nonlinear_arith)
        requires
            i == w * q + i % w,
            0 <= i % w < w,
            0 <= i < w * h,
            w > 0,
    ;
    assert(q * w == w * q) by (nonlinear_arith);
}

/// The in-bounds point `(x, y)` is cell `y * width + x`, and back.
pub proof fn lemma_point_cell(g: &Grid, x: int, y: int)
    requires
        g.wf(),
        g.in_bounds(x, y),
    ensures
        0 <= g.index_of(x, y) < g.pixels@.len(),
        g.index_of(x, y) % g.width as int == x,
        g.index_of(x, y) / g.width as int == y,
{
    lemma_index_in_bounds(g, x, y);
    lemma_fundamental_div_mod_converse(g.index_of(x, y), g.width as int, y, x);
}

} // verus!
