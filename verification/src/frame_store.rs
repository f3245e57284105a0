//! The frame store: bounds-checked access to a render target's decoded
//! pixel buffer.
//!
//! Pixels are RGBA, one byte per channel, kept in row-major order. The
//! store mutates the buffer in place and never talks to the GPU. In
//! normal use the bounds come from the target's own declared size, so an
//! out-of-bounds access cannot arise through the public interface.

use vstd::prelude::*;

verus! {

/// One RGBA pixel, one byte per channel.
#[derive(PartialEq, Eq, Structural, Clone, Copy, Debug)]
pub struct Pixel {
    pub r: u8,
    pub g: u8,
    pub b: u8,
    pub a: u8,
}

/// Position of pixel `(x, y)` in a row-major buffer `w` pixels wide.
pub open spec fn pix_index(w: int, x: int, y: int) -> int {
    y * w + x
}

/// A render target's decoded pixel buffer.
pub struct FrameStore {
    width: u32,
    height: u32,
    pixels: Vec<Pixel>,
}

impl View for FrameStore {
    type V = Seq<Pixel>;

    closed spec fn view(&self) -> Seq<Pixel> {
        self.pixels@
    }
}

impl FrameStore {
    pub closed spec fn spec_width(self) -> u32 {
        self.width
    }

    pub closed spec fn spec_height(self) -> u32 {
        self.height
    }

    /// The buffer holds exactly one pixel per coordinate.
    pub open spec fn wf(self) -> bool {
        self@.len() == self.spec_width() * self.spec_height()
    }

    /// A buffer of the given size with every pixel set to `fill`.
    pub fn new(width: u32, height: u32, fill: Pixel) -> (s: FrameStore)
        requires
            width * height <= usize::MAX,
        ensures
            s.wf(),
            s.spec_width() == width,
            s.spec_height() == height,
            forall|i: int| 0 <= i < s@.len() ==> s@[i] == fill,
    {
        let n: usize = (width as usize) * (height as usize);
        let mut pixels: Vec<Pixel> = Vec::new();
        let mut i: usize = 0;
        while i < n
            invariant
                0 <= i <= n,
                pixels@.len() == i,
                forall|k: int| 0 <= k < i ==> pixels@[k] == fill,
            decreases n - i,
        {
            pixels.push(fill);
            i += 1;
        }
        FrameStore { width, height, pixels }
    }

    pub fn width(&self) -> (w: u32)
        ensures
            w == self.spec_width(),
    {
        self.width
    }

    pub fn height(&self) -> (h: u32)
        ensures
            h == self.spec_height(),
    {
        self.height
    }

    /// The pixel at `(x, y)`.
    pub fn get(&self, x: u32, y: u32) -> (p: Pixel)
        requires
            self.wf(),
            x < self.spec_width(),
            y < self.spec_height(),
        ensures
            p == self@[pix_index(self.spec_width() as int, x as int, y as int)],
    {
        proof {
            lemma_pix_in_bounds(
                self.spec_width() as int,
                self.spec_height() as int,
                x as int,
                y as int,
            );
        }
        let buf_len: usize = self.pixels.len();
        proof {
            assert((y as int) * (self.spec_width() as int) + (x as int) < buf_len);
        }
        let idx: usize = (y as usize) * (self.width as usize) + (x as usize);
        self.pixels[idx]
    }

    /// Replaces the pixel at `(x, y)`.
    pub fn set(&mut self, x: u32, y: u32, p: Pixel)
        requires
            old(self).wf(),
            x < old(self).spec_width(),
            y < old(self).spec_height(),
        ensures
            final(self).wf(),
            final(self).spec_width() == old(self).spec_width(),
            final(self).spec_height() == old(self).spec_height(),
            final(self)@ == old(self)@.update(
                pix_index(old(self).spec_width() as int, x as int, y as int),
                p,
            ),
    {
        proof {
            lemma_pix_in_bounds(
                self.spec_width() as int,
                self.spec_height() as int,
                x as int,
                y as int,
            );
        }
        let buf_len: usize = self.pixels.len();
        proof {
            assert((y as int) * (self.spec_width() as int) + (x as int) < buf_len);
        }
        let idx: usize = (y as usize) * (self.width as usize) + (x as usize);
        self.pixels[idx] = p;
    }

    /// Visits every pixel exactly once, row by row and left to right
    /// within a row, replacing it with the function's return value.
    pub fn for_each<F: Fn(u32, u32, Pixel) -> Pixel>(&mut self, f: F)
        requires
            old(self).wf(),
            forall|x: u32, y: u32, p: Pixel| #[trigger] call_requires(f, (x, y, p)),
        ensures
            final(self).wf(),
            final(self).spec_width() == old(self).spec_width(),
            final(self).spec_height() == old(self).spec_height(),
            final(self)@.len() == old(self)@.len(),
            forall|x: u32, y: u32|
                x < old(self).spec_width() && y < old(self).spec_height() ==> #[trigger] call_ensures(
                    f,
                    (
                        x,
                        y,
                        old(self)@[pix_index(old(self).spec_width() as int, x as int, y as int)],
                    ),
                    final(self)@[pix_index(old(self).spec_width() as int, x as int, y as int)],
                ),
    {
        let ghost orig = self@;
        let ghost w0 = self.spec_width();
        let ghost h0 = self.spec_height();
        let w = self.width;
        let h = self.height;
        let mut y: u32 = 0;
        while y < h
            invariant
                0 <= y <= h,
                w == w0,
                h == h0,
                self.spec_width() == w0,
                self.spec_height() == h0,
                self@.len() == orig.len(),
                orig.len() == w0 * h0,
                forall|x2: u32, y2: u32, p: Pixel| #[trigger] call_requires(f, (x2, y2, p)),
                forall|x2: u32, y2: u32|
                    x2 < w0 && y2 < y ==> #[trigger] call_ensures(
                        f,
                        (x2, y2, orig[pix_index(w0 as int, x2 as int, y2 as int)]),
                        self@[pix_index(w0 as int, x2 as int, y2 as int)],
                    ),
                forall|i: int| y * w0 <= i < orig.len() ==> self@[i] == orig[i],
            decreases h - y,
        {
            let mut x: u32 = 0;
            while x < w
                invariant
                    0 <= x <= w,
                    0 <= y < h,
                    w == w0,
                    h == h0,
                    self.spec_width() == w0,
                    self.spec_height() == h0,
                    self@.len() == orig.len(),
                    orig.len() == w0 * h0,
                    forall|x2: u32, y2: u32, p: Pixel| #[trigger] call_requires(f, (x2, y2, p)),
                    forall|x2: u32, y2: u32|
                        x2 < w0 && y2 < y ==> #[trigger] call_ensures(
                            f,
                            (x2, y2, orig[pix_index(w0 as int, x2 as int, y2 as int)]),
                            self@[pix_index(w0 as int, x2 as int, y2 as int)],
                        ),
                    forall|x2: u32|
                        x2 < x ==> #[trigger] call_ensures(
                            f,
                            (x2, y, orig[pix_index(w0 as int, x2 as int, y as int)]),
                            self@[pix_index(w0 as int, x2 as int, y as int)],
                        ),
                    forall|i: int| y * w0 + x <= i < orig.len() ==> self@[i] == orig[i],
                decreases w - x,
            {
                let buf_len: usize = self.pixels.len();
                proof {
                    lemma_pix_in_bounds(w0 as int, h0 as int, x as int, y as int);
                    assert((y as int) * (w as int) + (x as int) < buf_len);
                }
                let idx: usize = (y as usize) * (w as usize) + (x as usize);
                let p = self.pixels[idx];
                let np = f(x, y, p);
                let ghost before = self@;
                self.pixels[idx] = np;
                proof {
                    assert forall|x2: u32, y2: u32| x2 < w0 && y2 < y implies pix_index(
                        w0 as int,
                        x2 as int,
                        y2 as int,
                    ) < y * w0 by {
                        assert((y2 as int) * (w0 as int) + (x2 as int) < (y as int) * (w0 as int))
                            by (nonlinear_arith)
                            requires
                                y2 < y,
                                x2 < w0,
                        ;
                    }
                }
                x += 1;
            }
            proof {
                assert((y as int) * (w0 as int) + (w0 as int) == ((y + 1) as int) * (w0 as int))
                    by (nonlinear_arith);
                assert forall|x2: u32, y2: u32| x2 < w0 && y2 < y + 1 implies #[trigger] call_ensures(
                    f,
                    (x2, y2, orig[pix_index(w0 as int, x2 as int, y2 as int)]),
                    self@[pix_index(w0 as int, x2 as int, y2 as int)],
                ) by {
                    if y2 < y {
                    } else {
                        assert(y2 == y);
                    }
                }
            }
            y += 1;
        }
    }
}

proof fn lemma_pix_in_bounds(w: int, h: int, x: int, y: int)
    requires
        0 <= x < w,
        0 <= y < h,
    ensures
        0 <= pix_index(w, x, y) < w * h,
        y * w + x < w * h,
{
    assert(0 <= y * w + x < w * h) by (nonlinear_arith)
        requires
            0 <= x < w,
            0 <= y < h,
    ;
}

} // verus!
