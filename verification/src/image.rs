//! The pixel buffer the rasterizer writes into: a width-by-height grid of
//! RGB values in row-major order, with bounds-checked pixel writes.  A write
//! outside the image is a checked no-op, never an out-of-bounds access.

use vstd::prelude::*;

verus! {

/// One pixel's colour.
#[derive(Clone, Copy, Debug, PartialEq, Eq, Structural)]
pub struct Rgb {
    pub r: u8,
    pub g: u8,
    pub b: u8,
}

/// A raster image: `width * height` pixels, row-major, row `v` at
/// `pixels[v * width .. (v + 1) * width]`.
#[derive(Clone, Debug)]
pub struct Image {
    pub width: u16,
    pub height: u16,
    pub pixels: Vec<Rgb>,
}

/// The row-major index of the pixel `(u, v)` in an image of width `w`.
pub open spec fn pix_index(w: int, u: int, v: int) -> int {
    v * w + u
}

impl Image {
    /// The pixel vector has exactly one entry per grid cell.
    pub open spec fn wf(self) -> bool {
        self.pixels@.len() == self.width * self.height
    }

    /// The colour of the pixel `(u, v)`.
    pub open spec fn pixel_at(self, u: int, v: int) -> Rgb {
        self.pixels@[pix_index(self.width as int, u, v)]
    }

    /// `(u, v)` is a grid coordinate of this image.
    pub open spec fn in_bounds(self, u: int, v: int) -> bool {
        0 <= u < self.width && 0 <= v < self.height
    }

    /// A fresh image with every pixel set to `background`.
    pub fn new(width: u16, height: u16, background: Rgb) -> (img: Self)
        requires
            width * height <= 0x4000_0000,
        ensures
            img.wf(),
            img.width == width,
            img.height == height,
            img.pixels@ == Seq::new((width * height) as nat, |i: int| background),
            forall|u: int, v: int|
                img.in_bounds(u, v) ==> #[trigger] img.pixel_at(u, v) == background,
    {
        let n: usize = (width as usize) * (height as usize);
        let mut pixels: Vec<Rgb> = Vec::new();
        for i in 0..n
            invariant
                pixels@.len() == i,
                forall|j: int| 0 <= j < i ==> #[trigger] pixels@[j] == background,
        {
            pixels.push(background);
        }
        let img = Image { width, height, pixels };
        proof {
            assert(img.pixels@ =~= Seq::new((width * height) as nat, |i: int| background));
            assert forall|u: int, v: int| img.in_bounds(u, v) implies #[trigger] img.pixel_at(
                u,
                v,
            ) == background by {
                lemma_pix_index_in_range(width as int, height as int, u, v);
            }
        }
        img
    }

    /// Writes the pixel `(u, v)` if it lies inside the image; a write
    /// outside the image changes nothing and reports `false`.
    pub fn set(&mut self, u: u16, v: u16, color: Rgb) -> (ok: bool)
        requires
            old(self).wf(),
        ensures
            final(self).wf(),
            final(self).width == old(self).width,
            final(self).height == old(self).height,
            ok == old(self).in_bounds(u as int, v as int),
            ok ==> final(self).pixels@ == old(self).pixels@.update(
                pix_index(old(self).width as int, u as int, v as int),
                color,
            ),
            !ok ==> final(self).pixels@ == old(self).pixels@,
    {
        if u < self.width && v < self.height {
            proof {
                lemma_pix_index_in_range(
                    self.width as int,
                    self.height as int,
                    u as int,
                    v as int,
                );
            }
            let n: usize = self.pixels.len();
            let idx: usize = (v as usize) * (self.width as usize) + (u as usize);
            self.pixels.set(idx, color);
            true
        } else {
            false
        }
    }

    /// Reads the pixel `(u, v)`, or `None` outside the image.
    pub fn get(&self, u: u16, v: u16) -> (r: Option<Rgb>)
        requires
            self.wf(),
        ensures
            r is Some <==> self.in_bounds(u as int, v as int),
            r is Some ==> r->Some_0 == self.pixel_at(u as int, v as int),
    {
        if u < self.width && v < self.height {
            proof {
                lemma_pix_index_in_range(
                    self.width as int,
                    self.height as int,
                    u as int,
                    v as int,
                );
            }
            let n: usize = self.pixels.len();
            let idx: usize = (v as usize) * (self.width as usize) + (u as usize);
            Some(self.pixels[idx])
        } else {
            None
        }
    }
}

/// A row-major index lies inside the pixel vector, and distinct coordinates
/// give distinct indices.
pub proof fn lemma_pix_index_in_range(w: int, h: int, u: int, v: int)
    by (nonlinear_arith)
    requires
        0 <= u < w,
        0 <= v < h,
    ensures
        0 <= pix_index(w, u, v) < w * h,
{
}

/// Distinct in-bounds coordinates map to distinct row-major indices.
pub proof fn lemma_pix_index_injective(w: int, u1: int, v1: int, u2: int, v2: int)
    by (nonlinear_arith)
    requires
        0 <= u1 < w,
        0 <= u2 < w,
        (u1, v1) != (u2, v2),
    ensures
        pix_index(w, u1, v1) != pix_index(w, u2, v2),
{
}

} // verus!
