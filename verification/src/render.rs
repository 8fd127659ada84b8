//! How a frame is split between render threads and into tiles.
//!
//! The frame is cut into `THREADS` horizontal bands of `height / THREADS` rows.
//! Inside a band, the thread walks a grid of square tiles of side `quality`
//! pixels: one colour is computed per tile and written to every pixel of it.
//! The last column and the last row of tiles hold what is left over, and may be
//! narrower (or empty).

use vstd::prelude::*;

verus! {

/// The number of render threads, and so of horizontal bands in a frame.
pub const THREADS: usize = 12;

/// The tiling of one band: `x_end` / `y_end` are the indices of the last
/// column / row of tiles, `x_excess` / `y_excess` their width / height.
#[derive(Clone, Copy, Debug, PartialEq, Eq)]
pub struct ThreadSplitter {
    pub x_excess: usize,
    pub y_excess: usize,
    pub x_end: usize,
    pub y_end: usize,
}

/// Width of the tile column `x` of a grid with last column `end`, full tiles of
/// side `quality` and a last column `excess` wide.
pub open spec fn tile_extent(end: nat, excess: nat, quality: nat, x: nat) -> nat {
    if x == end {
        excess
    } else {
        quality
    }
}

/// The pixel offset `x * quality + i` belongs to tile `x` at position `i`
/// inside it.
pub open spec fn tile_covers(end: nat, excess: nat, quality: nat, x: nat, i: nat, p: nat) -> bool {
    x <= end && i < tile_extent(end, excess, quality, x) && x * quality + i == p
}

/// Total extent of the first `k` tiles along one axis.
pub open spec fn extent_sum(end: nat, excess: nat, quality: nat, k: nat) -> nat
    decreases k,
{
    if k == 0 {
        0
    } else {
        extent_sum(end, excess, quality, (k - 1) as nat) + tile_extent(
            end,
            excess,
            quality,
            (k - 1) as nat,
        )
    }
}

/// Number of pixels written by the tiles of the first `kx` columns and `ky`
/// rows: the sum over those tiles of width times height.
pub open spec fn tiles_area(s: ThreadSplitter, quality: nat, kx: nat, ky: nat) -> nat
    decreases kx,
{
    if kx == 0 {
        0
    } else {
        tiles_area(s, quality, (kx - 1) as nat, ky) + tile_extent(
            s.x_end as nat,
            s.x_excess as nat,
            quality,
            (kx - 1) as nat,
        ) * extent_sum(s.y_end as nat, s.y_excess as nat, quality, ky)
    }
}

/// The tiling of a band `width` pixels wide and `thread_height` rows high.
pub open spec fn splits(s: ThreadSplitter, width: nat, thread_height: nat, quality: nat) -> bool {
    &&& quality > 0
    &&& s.x_excess == width % quality
    &&& s.y_excess == thread_height % quality
    &&& s.x_end == width / quality
    &&& s.y_end == thread_height / quality
}

impl ThreadSplitter {
    /// Splits a band `width` pixels wide and `thread_height` rows high into
    /// tiles of side `quality`.
    pub fn new(width: usize, thread_height: usize, quality: usize) -> (s: ThreadSplitter)
        requires
            quality > 0,
        ensures
            splits(s, width as nat, thread_height as nat, quality as nat),
    {
        ThreadSplitter {
            x_excess: width % quality,
            y_excess: thread_height % quality,
            x_end: width / quality,
            y_end: thread_height / quality,
        }
    }

    /// Returns the width and height in pixels of the tile in column `x`, row `y`.
    pub fn tile_size(&self, quality: usize, x: usize, y: usize) -> (size: (usize, usize))
        ensures
            size.0 == tile_extent(self.x_end as nat, self.x_excess as nat, quality as nat, x as nat),
            size.1 == tile_extent(self.y_end as nat, self.y_excess as nat, quality as nat, y as nat),
    {
        let width = if x == self.x_end {
            self.x_excess
        } else {
            quality
        };
        let height = if y == self.y_end {
            self.y_excess
        } else {
            quality
        };
        (width, height)
    }
}

/// Returns the number of rows of each band of a frame `height` rows high.
pub fn thread_height(height: usize) -> (h: usize)
    ensures
        h == height / THREADS,
        h * THREADS <= height,
{
    height / THREADS
}

/// Returns the first row of band `t`.
pub fn thread_start_y(t: usize, thread_height: usize) -> (y: usize)
    requires
        t < THREADS,
        thread_height * THREADS <= usize::MAX,
    ensures
        y == t * thread_height,
{
    proof {
        assert(t * thread_height <= THREADS * thread_height) by (nonlinear_arith)
            requires
                t < THREADS,
        ;
    }
    t * thread_height
}

/// Returns the frame pixel written for offset `(i, j)` inside the tile in
/// column `x`, row `y` of the band starting at row `start_y`.
pub fn tile_pixel(start_y: usize, quality: usize, x: usize, y: usize, i: usize, j: usize) -> (p: (
    u32,
    u32,
))
    requires
        x * quality + i <= u32::MAX,
        start_y + y * quality + j <= u32::MAX,
    ensures
        p.0 == x * quality + i,
        p.1 == start_y + y * quality + j,
{
    ((x * quality + i) as u32, (start_y + y * quality + j) as u32)
}

/// Returns the largest count in `counts`, or 0 when it is empty.
pub fn max_count(counts: &Vec<u32>) -> (m: u32)
    ensures
        forall|i: int| 0 <= i < counts@.len() ==> counts@[i] <= m,
        counts@.len() == 0 ==> m == 0,
        counts@.len() > 0 ==> exists|i: int| 0 <= i < counts@.len() && counts@[i] == m,
{
    let mut m: u32 = 0;
    let mut i: usize = 0;
    while i < counts.len()
        invariant
            i <= counts@.len(),
            forall|k: int| 0 <= k < i ==> counts@[k] <= m,
            i == 0 ==> m == 0,
            i > 0 ==> exists|k: int| 0 <= k < i && counts@[k] == m,
        decreases counts@.len() - i,
    {
        if counts[i] > m || i == 0 {
            m = counts[i];
        }
        i = i + 1;
    }
    m
}

// ---------------------------------------------------------------------------
// Laws
// ---------------------------------------------------------------------------

/// Along one axis, the tiles of a band cover each of its `length` pixels
/// exactly once: pixel `p` lies in tile `p / quality` at offset
/// `p % quality`, and in no other tile or offset.
pub proof fn lemma_tiles_cover_axis_once(length: nat, quality: nat, p: nat, x: nat, i: nat)
    requires
        quality > 0,
    ensures
        p < length ==> tile_covers(length / quality, length % quality, quality, p / quality, p % quality, p),
        tile_covers(length / quality, length % quality, quality, x, i, p) ==> p < length && x == p
            / quality && i == p % quality,
{
    let end = length / quality;
    let excess = length % quality;
    assert(length == end * quality + excess) by (nonlinear_arith)
        requires
            quality > 0,
            end == length / quality,
            excess == length % quality,
    ;
    if p < length {
        let px = p / quality;
        let pi = p % quality;
        assert(p == px * quality + pi && pi < quality) by (nonlinear_arith)
            requires
                quality > 0,
                px == p / quality,
                pi == p % quality,
        ;
        assert(px <= end) by (nonlinear_arith)
            requires
                quality > 0,
                px == p / quality,
                end == length / quality,
                p < length,
        ;
        if px == end {
            assert(pi < excess) by (nonlinear_arith)
                requires
                    p == px * quality + pi,
                    length == end * quality + excess,
                    px == end,
                    p < length,
            ;
        }
    }
    if tile_covers(end, excess, quality, x, i, p) {
        assert(i < quality) by {
            if x == end {
                assert(excess < quality) by (nonlinear_arith)
                    requires
                        quality > 0,
                        excess == length % quality,
                ;
            }
        }
        assert(p < length) by (nonlinear_arith)
            requires
                x <= end,
                x == end ==> i < excess,
                i < quality,
                x * quality + i == p,
                length == end * quality + excess,
                quality > 0,
        ;
        assert(x == p / quality && i == p % quality) by (nonlinear_arith)
            requires
                x * quality + i == p,
                i < quality,
                quality > 0,
        ;
    }
}

/// The tile widths of a band add up to its width.
pub proof fn lemma_extent_sum_total(length: nat, quality: nat)
    requires
        quality > 0,
    ensures
        extent_sum(length / quality, length % quality, quality, length / quality + 1) == length,
{
    let end = length / quality;
    let excess = length % quality;
    lemma_extent_sum_full(end, excess, quality, end);
    assert(length == end * quality + excess) by (nonlinear_arith)
        requires
            quality > 0,
            end == length / quality,
            excess == length % quality,
    ;
}

proof fn lemma_extent_sum_full(end: nat, excess: nat, quality: nat, k: nat)
    requires
        k <= end,
    ensures
        extent_sum(end, excess, quality, k) == k * quality,
    decreases k,
{
    if k > 0 {
        let km = (k - 1) as nat;
        lemma_extent_sum_full(end, excess, quality, km);
        assert(extent_sum(end, excess, quality, k) == extent_sum(end, excess, quality, km)
            + quality);
        assert(km * quality + quality == k * quality) by (nonlinear_arith)
            requires
                km + 1 == k,
        ;
    } else {
        assert(0 * quality == 0) by (nonlinear_arith);
    }
}

proof fn lemma_tiles_area_product(s: ThreadSplitter, quality: nat, kx: nat, ky: nat)
    ensures
        tiles_area(s, quality, kx, ky) == extent_sum(s.x_end as nat, s.x_excess as nat, quality, kx)
            * extent_sum(s.y_end as nat, s.y_excess as nat, quality, ky),
    decreases kx,
{
    if kx > 0 {
        lemma_tiles_area_product(s, quality, (kx - 1) as nat, ky);
        let a = extent_sum(s.x_end as nat, s.x_excess as nat, quality, (kx - 1) as nat);
        let w = tile_extent(s.x_end as nat, s.x_excess as nat, quality, (kx - 1) as nat);
        let h = extent_sum(s.y_end as nat, s.y_excess as nat, quality, ky);
        assert(a * h + w * h == (a + w) * h) by (nonlinear_arith);
        assert(extent_sum(s.x_end as nat, s.x_excess as nat, quality, kx) == a + w);
    } else {
        let h = extent_sum(s.y_end as nat, s.y_excess as nat, quality, ky);
        assert(0 * h == 0) by (nonlinear_arith);
    }
}

/// The pixels written for the tiles of a band add up to the band's area:
/// summing width times height over every tile of the grid gives
/// `width * thread_height`.
pub proof fn lemma_tiles_area_is_band_area(
    s: ThreadSplitter,
    width: nat,
    thread_height: nat,
    quality: nat,
)
    requires
        splits(s, width, thread_height, quality),
    ensures
        tiles_area(s, quality, s.x_end as nat + 1, s.y_end as nat + 1) == width * thread_height,
{
    lemma_tiles_area_product(s, quality, s.x_end as nat + 1, s.y_end as nat + 1);
    lemma_extent_sum_total(width, quality);
    lemma_extent_sum_total(thread_height, quality);
}

/// The bands of the threads cover each of the first `THREADS * thread_height`
/// rows of the frame exactly once: row `r` lies in band `r / thread_height`,
/// and in no other.
pub proof fn lemma_bands_cover_rows_once(thread_height: nat, r: nat, t: nat)
    requires
        thread_height > 0,
    ensures
        r < THREADS * thread_height ==> r / thread_height < THREADS,
        (t < THREADS && t * thread_height <= r < t * thread_height + thread_height) <==> (r
            < THREADS * thread_height && t == r / thread_height),
{
    let q = r / thread_height;
    assert(q * thread_height <= r < q * thread_height + thread_height) by (nonlinear_arith)
        requires
            thread_height > 0,
            q == r / thread_height,
    ;
    if t * thread_height <= r < t * thread_height + thread_height {
        assert(t == q) by (nonlinear_arith)
            requires
                t * thread_height <= r < t * thread_height + thread_height,
                q * thread_height <= r < q * thread_height + thread_height,
                thread_height > 0,
        ;
    }
    if r < THREADS * thread_height {
        assert(q < THREADS) by (nonlinear_arith)
            requires
                q * thread_height <= r,
                r < THREADS * thread_height,
                thread_height > 0,
        ;
    }
    if t < THREADS && t * thread_height <= r < t * thread_height + thread_height {
        assert(r < THREADS * thread_height) by (nonlinear_arith)
            requires
                t < THREADS,
                r < t * thread_height + thread_height,
        ;
    }
}

} // verus!
