//! A plain RGB raster held as one flat byte buffer, three bytes per pixel in
//! row-major order. Detection and blending work on this type; the collaborator
//! layer converts decoded images into it and back.

use vstd::prelude::*;

verus! {

/// An RGB image: `data` holds `3 * width * height` bytes, pixel `(x, y)`
/// starting at byte `3 * (y * width + x)`.
pub struct Image {
    /// Width in pixels.
    pub width: u32,
    /// Height in pixels.
    pub height: u32,
    /// Flat RGB bytes, row-major, three per pixel.
    pub data: Vec<u8>,
}

/// Byte index of channel `c` of pixel `(x, y)` in a raster of width `w`.
pub open spec fn pixel_index(w: int, x: int, y: int, c: int) -> int {
    3 * (y * w + x) + c
}

/// Channel `c` of pixel `(x, y)` of the flat buffer `data`.
pub open spec fn spec_channel(data: Seq<u8>, w: int, x: int, y: int, c: int) -> u8 {
    data[pixel_index(w, x, y, c)]
}

impl Image {
    /// The buffer holds exactly three bytes per pixel.
    pub open spec fn wf(&self) -> bool {
        self.data.len() == 3 * ((self.width as int) * (self.height as int))
    }

    /// The byte index of a pixel's first channel stays inside the buffer.
    pub proof fn lemma_index_in_bounds(&self, x: int, y: int, c: int)
        requires
            self.wf(),
            0 <= x < self.width,
            0 <= y < self.height,
            0 <= c < 3,
        ensures
            0 <= pixel_index(self.width as int, x, y, c) < self.data.len(),
            y * (self.width as int) + x < (self.width as int) * (self.height as int),
    {
        let w = self.width as int;
        let h = self.height as int;
        assert(0 <= y * w + x && y * w + x < w * h) by (nonlinear_arith)
            requires
                0 <= x < w,
                0 <= y < h,
        ;
    }

    /// Read channel `c` (0 = red, 1 = green, 2 = blue) of pixel `(x, y)`.
    pub fn channel(&self, x: u32, y: u32, c: usize) -> (r: u8)
        requires
            self.wf(),
            x < self.width,
            y < self.height,
            c < 3,
        ensures
            r == spec_channel(self.data@, self.width as int, x as int, y as int, c as int),
    {
        proof {
            self.lemma_index_in_bounds(x as int, y as int, c as int);
        }
        let base: usize = (y as usize) * (self.width as usize) + (x as usize);
        self.data[3 * base + c]
    }

    /// Write channel `c` of pixel `(x, y)`; every other byte is unchanged.
    pub fn set_channel(&mut self, x: u32, y: u32, c: usize, v: u8)
        requires
            old(self).wf(),
            x < old(self).width,
            y < old(self).height,
            c < 3,
        ensures
            final(self).wf(),
            final(self).width == old(self).width,
            final(self).height == old(self).height,
            final(self).data@ == old(self).data@.update(
                pixel_index(old(self).width as int, x as int, y as int, c as int),
                v,
            ),
    {
        proof {
            old(self).lemma_index_in_bounds(x as int, y as int, c as int);
        }
        let base: usize = (y as usize) * (self.width as usize) + (x as usize);
        self.data.set(3 * base + c, v);
    }

    /// Make an all-zero (black) image of the given dimensions.
    pub fn new_black(width: u32, height: u32) -> (r: Image)
        requires
            3 * ((width as int) * (height as int)) <= usize::MAX,
        ensures
            r.wf(),
            r.width == width,
            r.height == height,
            forall|i: int| 0 <= i < r.data@.len() ==> r.data@[i] == 0u8,
    {
        proof {
            assert((width as int) * (height as int) >= 0) by (nonlinear_arith);
        }
        let px: usize = (width as usize) * (height as usize);
        let total: usize = 3 * px;
        let mut data: Vec<u8> = Vec::new();
        let mut i: usize = 0;
        while i < total
            invariant
                i <= total,
                data@.len() == i,
                forall|j: int| 0 <= j < i ==> data@[j] == 0u8,
            decreases total - i,
        {
            data.push(0u8);
            i = i + 1;
        }
        Image { width, height, data }
    }
}

} // verus!
