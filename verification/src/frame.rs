//! The frame driver: owns the persistent pixel buffer and the
//! previous frame's timestamp, and sequences one render cycle —
//! clear, transform, rasterize — per tick. Presenting the finished
//! buffer and reading the clock belong to the host environment.

use vstd::prelude::*;
use vstd::arithmetic::div_mod::{lemma_div_by_self, lemma_div_is_ordered, lemma_div_is_ordered_by_denominator};
use crate::fixed::FP;
use crate::geom::{spec_transform_triangle, transform_triangle, ASPECT_LIMIT};
use crate::geom::lemma_transform_is_spec;
use crate::raster::{MAX_DIM, RasterError, in_ndc, raster_seq, rasterize, sorted_proj};

verus! {

/// A buffer of `n` zero bytes.
pub open spec fn zero_buffer(n: nat) -> Seq<u8> {
    Seq::new(n, |k: int| 0u8)
}

/// Drives one rotating triangle onto one surface. The state carried
/// across frames is exactly the previous timestamp (for delta time)
/// and the owned pixel buffer; everything else is rebuilt per frame.
pub struct FrameDriver {
    /// Surface width in pixels, fixed for the session.
    pub width: usize,
    /// Surface height in pixels, fixed for the session.
    pub height: usize,
    /// The previous frame's timestamp in milliseconds; `None` until
    /// the first frame has been seen.
    pub prev_timestamp: Option<u64>,
    /// The RGBA pixel buffer, `width * height * 4` bytes, row-major,
    /// top row first.
    pub buffer: Vec<u8>,
}

impl FrameDriver {
    /// Well-formed: dimensions in range and the buffer sized to the
    /// surface.
    pub open spec fn wf(self) -> bool {
        &&& 1 <= self.width <= MAX_DIM
        &&& 1 <= self.height <= MAX_DIM
        &&& self.buffer@.len() == self.width * self.height * 4
    }

    /// The aspect ratio the pipeline corrects for: height over width,
    /// in fixed point.
    pub open spec fn spec_aspect(self) -> int {
        (self.height * (FP as int)) / (self.width as int)
    }

    /// Creates a driver for a surface of the given pixel size, with a
    /// zeroed buffer and no previous timestamp.
    pub fn new(width: usize, height: usize) -> (d: FrameDriver)
        requires
            1 <= width <= MAX_DIM,
            1 <= height <= MAX_DIM,
        ensures
            d.wf(),
            d.width == width,
            d.height == height,
            d.prev_timestamp is None,
            d.buffer@ == zero_buffer((width * height * 4) as nat),
    {
        proof {
            assert(width * height * 4 <= 0x4000_0000) by (nonlinear_arith)
                requires
                    0 < width <= MAX_DIM,
                    0 < height <= MAX_DIM,
            ;
        }
        let n: usize = width * height * 4;
        let mut buffer: Vec<u8> = Vec::new();
        let mut k: usize = 0;
        while k < n
            invariant
                k <= n,
                buffer@.len() == k,
                forall|j: int| 0 <= j < k ==> buffer@[j] == 0u8,
            decreases n - k,
        {
            buffer.push(0);
            k = k + 1;
        }
        proof {
            assert(buffer@ =~= zero_buffer(n as nat));
        }
        FrameDriver { width, height, prev_timestamp: None, buffer }
    }

    /// Records the frame's timestamp and returns the delta time: zero
    /// on the first frame, the gap to the previous frame afterwards.
    /// Timestamps are milliseconds and must not decrease.
    pub fn begin_frame(&mut self, timestamp: u64) -> (dt: u64)
        requires
            match old(self).prev_timestamp {
                Some(p) => p <= timestamp,
                None => true,
            },
        ensures
            final(self).prev_timestamp == Some(timestamp),
            final(self).width == old(self).width,
            final(self).height == old(self).height,
            final(self).buffer == old(self).buffer,
            dt == match old(self).prev_timestamp {
                None => 0int,
                Some(p) => timestamp - p,
            },
    {
        let dt: u64 = match self.prev_timestamp {
            None => 0,
            Some(p) => timestamp - p,
        };
        self.prev_timestamp = Some(timestamp);
        dt
    }

    /// Zeroes every byte of the pixel buffer.
    pub fn clear(&mut self)
        ensures
            final(self).buffer@ == zero_buffer(old(self).buffer@.len()),
            final(self).width == old(self).width,
            final(self).height == old(self).height,
            final(self).prev_timestamp == old(self).prev_timestamp,
    {
        let n: usize = self.buffer.len();
        let mut k: usize = 0;
        while k < n
            invariant
                k <= n,
                self.buffer@.len() == n,
                self.width == old(self).width,
                self.height == old(self).height,
                self.prev_timestamp == old(self).prev_timestamp,
                forall|j: int| 0 <= j < k ==> self.buffer@[j] == 0u8,
            decreases n - k,
        {
            self.buffer.set(k, 0);
            k = k + 1;
        }
        proof {
            assert(self.buffer@ =~= zero_buffer(old(self).buffer@.len()));
        }
    }

    /// The aspect ratio as a value: height over width in fixed point,
    /// always positive and within the pipeline's range.
    pub fn aspect(&self) -> (a: i64)
        requires
            self.wf(),
        ensures
            a == self.spec_aspect(),
            0 < a <= ASPECT_LIMIT,
    {
        let a: u64 = ((self.height as u64) * (FP as u64)) / (self.width as u64);
        proof {
            let num = (self.height as int) * (FP as int);
            assert((FP as int) <= num <= 0x4000_0000) by (nonlinear_arith)
                requires
                    num == (self.height as int) * (FP as int),
                    (FP as int) == 65536,
                    1 <= self.height <= 16384,
            ;
            assert(1 <= num / (self.width as int)) by {
                lemma_div_is_ordered((self.width as int), num, self.width as int);
                lemma_div_by_self(self.width as int);
            }
            assert(num / (self.width as int) <= num) by {
                lemma_div_is_ordered_by_denominator(num, 1, self.width as int);
            }
        }
        a as i64
    }

    /// One frame's drawing: clears the buffer, transforms the base
    /// triangle by the given sine and cosine and the surface's aspect
    /// ratio, and rasterizes the result. Succeeds exactly when the
    /// transformed triangle stays inside the normalized device
    /// square; when it does not, the buffer is left cleared.
    pub fn render_frame(&mut self, sin: i64, cos: i64) -> (res: Result<(), RasterError>)
        requires
            old(self).wf(),
            -FP <= sin <= FP,
            -FP <= cos <= FP,
        ensures
            final(self).wf(),
            final(self).width == old(self).width,
            final(self).height == old(self).height,
            final(self).prev_timestamp == old(self).prev_timestamp,
            ({
                let tri = spec_transform_triangle(sin as int, cos as int, old(self).spec_aspect());
                let w = old(self).width as int;
                let h = old(self).height as int;
                let zeros = zero_buffer(old(self).buffer@.len());
                &&& (in_ndc(tri) ==> res == Ok::<(), RasterError>(())
                    && final(self).buffer@ == raster_seq(sorted_proj(tri, w, h), w, zeros))
                &&& (!in_ndc(tri) ==> res == Err::<(), RasterError>(RasterError::OutOfRange)
                    && final(self).buffer@ == zeros)
            }),
    {
        self.clear();
        let aspect: i64 = self.aspect();
        let tri = transform_triangle(sin, cos, aspect);
        proof {
            lemma_transform_is_spec(tri, sin as int, cos as int, aspect as int);
        }
        let w: usize = self.width;
        let h: usize = self.height;
        rasterize(&tri, &mut self.buffer, w, h)
    }
}

} // verus!
