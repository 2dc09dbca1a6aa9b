//! The pixel grid of an image: its dimensions, and the order in which its
//! pixels are written, top row first and each row from left to right.

use vstd::prelude::*;

verus! {

/// The dimensions of an image, in pixels. Either may be zero: such an image
/// has no pixel.
#[derive(Clone, Copy, Debug, PartialEq, Eq, Structural)]
pub struct Raster {
    pub width: u32,
    pub height: u32,
}

/// One pixel of a grid. Columns count from the left edge and rows from the
/// bottom edge, so that both grow with the viewport's own coordinates.
#[derive(Clone, Copy, Debug, PartialEq, Eq, Structural)]
pub struct Pixel {
    pub column: u32,
    pub row: u32,
}

/// The height of an image `width` pixels wide whose sides are in the ratio
/// `aspect_w : aspect_h`: the width divided by the ratio, rounded down.
pub open spec fn height_for(width: nat, aspect_w: nat, aspect_h: nat) -> nat
    recommends
        aspect_w > 0,
{
    (width * aspect_h) / aspect_w
}

impl Raster {
    /// How many pixels the image has.
    pub open spec fn count(self) -> nat {
        (self.width * self.height) as nat
    }

    /// Whether `pixel` lies on the grid.
    pub open spec fn contains(self, pixel: Pixel) -> bool {
        pixel.column < self.width && pixel.row < self.height
    }

    /// The pixel written at place `k`, counting from zero: place 0 is the left
    /// end of the top row, and a row's right end is followed by the left end of
    /// the row below.
    pub open spec fn scan(self, k: nat) -> Pixel
        recommends
            k < self.count(),
    {
        Pixel {
            column: (k % (self.width as nat)) as u32,
            row: (self.height - 1 - k / (self.width as nat)) as u32,
        }
    }

    /// The place at which `pixel` is written.
    pub open spec fn place(self, pixel: Pixel) -> nat
        recommends
            self.contains(pixel),
    {
        ((self.height - 1 - pixel.row) * self.width + pixel.column) as nat
    }

    /// The grid of the given width whose sides are in the ratio
    /// `aspect_w : aspect_h`. There is none when the ratio's first term is zero
    /// or the height does not fit in 32 bits.
    pub fn from_aspect(width: u32, aspect_w: u32, aspect_h: u32) -> (grid: Option<Raster>)
        ensures
            grid is Some <==> aspect_w > 0 && height_for(
                width as nat,
                aspect_w as nat,
                aspect_h as nat,
            ) <= u32::MAX,
            grid matches Some(g) ==> g.width == width && g.height == height_for(
                width as nat,
                aspect_w as nat,
                aspect_h as nat,
            ),
    {
        if aspect_w == 0 {
            return None;
        }
        assert(width * aspect_h <= u64::MAX) by (nonlinear_arith)
            requires
                width <= u32::MAX,
                aspect_h <= u32::MAX,
        ;
        let scaled: u64 = width as u64 * aspect_h as u64;
        let height: u64 = scaled / aspect_w as u64;
        if height > u32::MAX as u64 {
            None
        } else {
            Some(Raster { width, height: height as u32 })
        }
    }

    /// How many pixels the image has.
    pub fn pixel_count(&self) -> (n: u64)
        ensures
            n == self.count(),
    {
        assert(self.width * self.height <= u64::MAX) by (nonlinear_arith)
            requires
                self.width <= u32::MAX,
                self.height <= u32::MAX,
        ;
        self.width as u64 * self.height as u64
    }

    /// The pixel written at place `k`, or nothing once `k` has run past the
    /// last pixel.
    pub fn pixel_at(&self, k: u64) -> (pixel: Option<Pixel>)
        ensures
            k < self.count() ==> pixel == Some(self.scan(k as nat)),
            k >= self.count() ==> pixel is None,
    {
        if k >= self.pixel_count() {
            return None;
        }
        proof {
            lemma_scan_on_grid(*self, k as nat);
        }
        let w: u64 = self.width as u64;
        let column: u64 = k % w;
        let down: u64 = k / w;
        let row: u64 = self.height as u64 - 1 - down;
        Some(Pixel { column: column as u32, row: row as u32 })
    }
}

/// Every place below the pixel count is a pixel of the grid.
pub proof fn lemma_scan_on_grid(grid: Raster, k: nat)
    requires
        k < grid.count(),
    ensures
        grid.width > 0,
        k / (grid.width as nat) < grid.height,
        k % (grid.width as nat) < grid.width,
        grid.contains(grid.scan(k)),
{
    let w = grid.width as int;
    let h = grid.height as int;
    assert(w > 0) by (nonlinear_arith)
        requires
            k < w * h,
            w >= 0,
            h >= 0,
    ;
    assert((k as int) / w < h) by (nonlinear_arith)
        requires
            k < w * h,
            w > 0,
    {
        vstd::arithmetic::div_mod::lemma_fundamental_div_mod(k as int, w);
        vstd::arithmetic::div_mod::lemma_mod_bound(k as int, w);
        assert(k == w * (k as int / w) + k as int % w);
        if (k as int) / w >= h {
            assert(w * (k as int / w) >= w * h);
        }
    }
    assert(0 <= (k as int) / w) by (nonlinear_arith)
        requires
            k >= 0,
            w > 0,
    ;
}

/// Each pixel of the grid is written once: its place is below the pixel count,
/// that place holds the pixel, and no other place does.
pub proof fn lemma_each_pixel_once(grid: Raster, pixel: Pixel)
    requires
        grid.contains(pixel),
    ensures
        grid.place(pixel) < grid.count(),
        grid.scan(grid.place(pixel)) == pixel,
        forall|k: nat| k < grid.count() && grid.scan(k) == pixel ==> k == grid.place(pixel),
{
    let w = grid.width as int;
    let h = grid.height as int;
    let down = h - 1 - pixel.row;
    let c = pixel.column as int;
    assert(0 <= down * w + c < w * h) by (nonlinear_arith)
        requires
            0 <= down <= h - 1,
            0 <= c < w,
    ;
    vstd::arithmetic::div_mod::lemma_fundamental_div_mod_converse(down * w + c, w, down, c);
    assert forall|k: nat| k < grid.count() && grid.scan(k) == pixel implies k == grid.place(
        pixel,
    ) by {
        lemma_scan_on_grid(grid, k);
        vstd::arithmetic::div_mod::lemma_fundamental_div_mod(k as int, w);
        assert(k as int / w == down);
        assert(k as int % w == c);
        assert(w * down == down * w) by (nonlinear_arith);
    }
}

/// The place of the pixel written at place `k` is `k`.
pub proof fn lemma_place_of_scan(grid: Raster, k: nat)
    requires
        k < grid.count(),
    ensures
        grid.place(grid.scan(k)) == k,
{
    lemma_scan_on_grid(grid, k);
    let w = grid.width as int;
    vstd::arithmetic::div_mod::lemma_fundamental_div_mod(k as int, w);
    assert(w * (k as int / w) == (k as int / w) * w) by (nonlinear_arith);
}

/// Raster order: of two pixels, the one written first lies in a higher row, or
/// in the same row further left.
pub proof fn lemma_scan_order(grid: Raster, first: nat, second: nat)
    requires
        first < second < grid.count(),
    ensures
        grid.scan(first).row > grid.scan(second).row || (grid.scan(first).row == grid.scan(
            second,
        ).row && grid.scan(first).column < grid.scan(second).column),
{
    lemma_scan_on_grid(grid, first);
    lemma_scan_on_grid(grid, second);
    let w = grid.width as int;
    vstd::arithmetic::div_mod::lemma_fundamental_div_mod(first as int, w);
    vstd::arithmetic::div_mod::lemma_fundamental_div_mod(second as int, w);
    vstd::arithmetic::div_mod::lemma_div_is_ordered(first as int, second as int, w);
}

} // verus!
