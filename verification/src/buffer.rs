//! Image buffers: a three-channel 8-bit pixel grid for images and
//! overlays, and a single-channel grid for masks.
//!
//! Both are flat, row-major vectors whose length is tied to the declared
//! dimensions by a well-formedness predicate.  The base image carries no
//! alpha channel; opacity is a blend-time parameter.

use vstd::prelude::*;

use crate::math::lemma_rgb_index_bound;

verus! {

/// A three-channel (red, green, blue) 8-bit image, channels interleaved.
pub struct RgbBuffer {
    pub width: u32,
    pub height: u32,
    pub data: Vec<u8>,
}

/// A single-channel 8-bit intensity mask.
pub struct GrayBuffer {
    pub width: u32,
    pub height: u32,
    pub data: Vec<u8>,
}

impl RgbBuffer {
    /// The buffer holds exactly one byte per channel of every pixel.
    pub open spec fn wf(self) -> bool {
        self.data@.len() == self.width as int * self.height as int * 3
    }

    /// The byte of channel `c` of the pixel at `(x, y)`.
    pub open spec fn spec_at(self, x: int, y: int, c: int) -> int {
        self.data@[(y * self.width as int + x) * 3 + c] as int
    }

    /// A buffer of the given size with every channel set to `value`.
    pub fn filled(width: u32, height: u32, value: u8) -> (buf: RgbBuffer)
        requires
            width as int * height as int * 3 <= usize::MAX as int,
        ensures
            buf.wf(),
            buf.width == width,
            buf.height == height,
            forall|k: int| 0 <= k < buf.data@.len() ==> buf.data@[k] == value,
    {
        let total: usize = (width as u128 * height as u128 * 3) as usize;
        let mut data: Vec<u8> = Vec::new();
        let mut i: usize = 0;
        while i < total
            invariant
                i <= total,
                total == width as int * height as int * 3,
                data@.len() == i,
                forall|k: int| 0 <= k < i ==> data@[k] == value,
            decreases total - i,
        {
            data.push(value);
            i = i + 1;
        }
        RgbBuffer { width, height, data }
    }

    /// A fresh buffer with the same dimensions and contents.
    pub fn duplicate(&self) -> (buf: RgbBuffer)
        requires
            self.wf(),
        ensures
            buf.wf(),
            buf.width == self.width,
            buf.height == self.height,
            buf.data@ == self.data@,
    {
        let total: usize = self.data.len();
        let mut data: Vec<u8> = Vec::new();
        let mut i: usize = 0;
        while i < total
            invariant
                i <= total,
                total == self.data@.len(),
                data@.len() == i,
                forall|k: int| 0 <= k < i ==> data@[k] == self.data@[k],
            decreases total - i,
        {
            data.push(self.data[i]);
            i = i + 1;
        }
        proof {
            assert(data@ =~= self.data@);
        }
        RgbBuffer { width: self.width, height: self.height, data }
    }

    /// Read channel `c` of the pixel at `(x, y)`.
    pub fn get(&self, x: u32, y: u32, c: u32) -> (v: u8)
        requires
            self.wf(),
            x < self.width,
            y < self.height,
            c < 3,
        ensures
            v as int == self.spec_at(x as int, y as int, c as int),
    {
        let len: usize = self.data.len();
        proof {
            lemma_rgb_index_bound(x as int, y as int, self.width as int, self.height as int);
            assert(self.width as int * self.height as int <= self.width as int
                * self.height as int * 3);
        }
        let k: usize = ((y as u64 * self.width as u64 + x as u64) * 3 + c as u64) as usize;
        self.data[k]
    }
}

impl GrayBuffer {
    /// The buffer holds exactly one byte per pixel.
    pub open spec fn wf(self) -> bool {
        self.data@.len() == self.width as int * self.height as int
    }

    /// The intensity of the pixel at `(x, y)`.
    pub open spec fn spec_at(self, x: int, y: int) -> int {
        self.data@[y * self.width as int + x] as int
    }

    /// Expand the mask to a three-channel buffer by replicating each
    /// intensity into all channels, so it can be blended like any overlay.
    pub fn to_rgb(&self) -> (buf: RgbBuffer)
        requires
            self.wf(),
            self.width as int * self.height as int * 3 <= usize::MAX as int,
        ensures
            buf.wf(),
            buf.width == self.width,
            buf.height == self.height,
            forall|k: int| 0 <= k < buf.data@.len() ==> buf.data@[k] == self.data@[k / 3],
    {
        let total: usize = self.data.len();
        let mut data: Vec<u8> = Vec::new();
        let mut i: usize = 0;
        while i < total
            invariant
                i <= total,
                total == self.data@.len(),
                self.wf(),
                data@.len() == 3 * i,
                forall|k: int| 0 <= k < 3 * i ==> data@[k] == self.data@[k / 3],
            decreases total - i,
        {
            let v: u8 = self.data[i];
            data.push(v);
            data.push(v);
            data.push(v);
            proof {
                assert forall|k: int| 0 <= k < 3 * (i + 1) implies data@[k] == self.data@[k
                    / 3] by {
                    if k >= 3 * i {
                        assert(k / 3 == i) by (nonlinear_arith)
                            requires
                                3 * i <= k < 3 * (i + 1),
                        ;
                    }
                }
            }
            i = i + 1;
        }
        RgbBuffer { width: self.width, height: self.height, data }
    }
}

} // verus!
