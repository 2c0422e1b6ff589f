//! The framebuffer: an RGBA byte buffer with bounds-checked pixel writes.
//!
//! Out-of-range writes are silently dropped by design; upstream clipping is
//! expected to prevent them, and dropping is the safety net.

use vstd::prelude::*;

verus! {

/// An RGBA framebuffer of `width * height` pixels, 4 bytes each, rows first.
pub struct Frame {
    pub width: u32,
    pub height: u32,
    pub data: Vec<u8>,
}

impl Frame {
    /// The buffer holds exactly its `width * height` RGBA pixels.
    pub open spec fn wf(self) -> bool {
        &&& self.width <= 0x4000
        &&& self.height <= 0x4000
        &&& self.data.len() == self.width * self.height * 4
    }

    /// Byte offset of the pixel at `(x, y)`.
    pub open spec fn spec_pixel_index(self, x: int, y: int) -> int {
        (y * self.width + x) * 4
    }

    /// The four bytes of the pixel at `(x, y)`.
    pub open spec fn spec_pixel_at(self, x: int, y: int) -> Seq<u8> {
        pixel_bytes(self.data@, self.width as int, x, y)
    }

    /// The buffer after a write at `(x, y)`: updated inside the bounds, the
    /// same buffer outside them.
    pub open spec fn spec_write_pixel(self, x: int, y: int, color: [u8; 4]) -> Seq<u8> {
        if 0 <= x < self.width && 0 <= y < self.height {
            let base = self.spec_pixel_index(x, y);
            self.data@.update(base, color[0]).update(base + 1, color[1]).update(
                base + 2,
                color[2],
            ).update(base + 3, color[3])
        } else {
            self.data@
        }
    }

    /// A pixel's byte range stays inside the buffer.
    pub proof fn lemma_pixel_index_in_range(self, x: int, y: int)
        requires
            self.wf(),
            0 <= x < self.width,
            0 <= y < self.height,
        ensures
            0 <= self.spec_pixel_index(x, y),
            self.spec_pixel_index(x, y) + 4 <= self.data.len(),
    {
        let w = self.width as int;
        let h = self.height as int;
        assert(0 <= y * w + x && (y * w + x) * 4 + 4 <= w * h * 4) by (nonlinear_arith)
            requires
                0 <= x,
                x + 1 <= w,
                0 <= y,
                y + 1 <= h,
        ;
        assert(w * h * 4 == self.width * self.height * 4) by (nonlinear_arith)
            requires
                w == self.width,
                h == self.height,
        ;
    }

    /// An empty (all-zero) framebuffer.
    pub fn new(width: u32, height: u32) -> (f: Frame)
        requires
            width <= 0x4000,
            height <= 0x4000,
        ensures
            f.wf(),
            f.width == width,
            f.height == height,
            forall|j: int| 0 <= j < f.data.len() ==> f.data[j] == 0u8,
    {
        let w: usize = width as usize;
        let h: usize = height as usize;
        proof {
            crate::math::lemma_mul_abs_bound(w as int, h as int, 0x4000, 0x4000);
            crate::math::lemma_mul_abs_bound((w * h) as int, 4, 0x1000_0000, 4);
            crate::math::lemma_mul_congruence(w as int, h as int, width as int, height as int);
        }
        let total: usize = w * h * 4;
        let mut data: Vec<u8> = Vec::new();
        let mut j: usize = 0;
        while j < total
            invariant
                j <= total,
                data.len() == j,
                forall|k: int| 0 <= k < j ==> data[k] == 0u8,
            decreases total - j,
        {
            data.push(0);
            j = j + 1;
        }
        Frame { width, height, data }
    }

    /// Overwrites every pixel with `color`.
    pub fn clear(&mut self, color: [u8; 4])
        requires
            old(self).wf(),
        ensures
            final(self).wf(),
            final(self).width == old(self).width,
            final(self).height == old(self).height,
            forall|j: int|
                0 <= j < final(self).data.len() ==> #[trigger] final(self).data[j] == color[j % 4],
    {
        let total: usize = self.data.len();
        let mut data: Vec<u8> = Vec::new();
        let mut j: usize = 0;
        while j < total
            invariant
                j <= total,
                data.len() == j,
                forall|k: int| 0 <= k < j ==> #[trigger] data[k] == color[k % 4],
            decreases total - j,
        {
            data.push(color[j % 4]);
            j = j + 1;
        }
        self.data = data;
    }

    /// Writes one pixel; coordinates outside the buffer are silently
    /// dropped.
    pub fn write_pixel(&mut self, x: i32, y: i32, color: [u8; 4])
        requires
            old(self).wf(),
        ensures
            final(self).wf(),
            final(self).width == old(self).width,
            final(self).height == old(self).height,
            final(self).data@ == old(self).spec_write_pixel(x as int, y as int, color),
    {
        if x < 0 || y < 0 || x >= self.width as i32 || y >= self.height as i32 {
            return;
        }
        proof {
            self.lemma_pixel_index_in_range(x as int, y as int);
            crate::math::lemma_mul_abs_bound(
                (y as usize) as int,
                (self.width as usize) as int,
                0x4000,
                0x4000,
            );
            crate::math::lemma_mul_congruence(
                (y as usize) as int,
                (self.width as usize) as int,
                y as int,
                self.width as int,
            );
        }
        let base: usize = ((y as usize) * (self.width as usize) + (x as usize)) * 4;
        self.data[base] = color[0];
        self.data[base + 1] = color[1];
        self.data[base + 2] = color[2];
        self.data[base + 3] = color[3];
    }

    /// Reads one pixel.
    pub fn pixel(&self, x: u32, y: u32) -> (r: [u8; 4])
        requires
            self.wf(),
            x < self.width,
            y < self.height,
        ensures
            r@ == self.spec_pixel_at(x as int, y as int),
    {
        proof {
            self.lemma_pixel_index_in_range(x as int, y as int);
            crate::math::lemma_mul_abs_bound(
                (y as usize) as int,
                (self.width as usize) as int,
                0x4000,
                0x4000,
            );
            crate::math::lemma_mul_congruence(
                (y as usize) as int,
                (self.width as usize) as int,
                y as int,
                self.width as int,
            );
        }
        let base: usize = ((y as usize) * (self.width as usize) + (x as usize)) * 4;
        let r = [self.data[base], self.data[base + 1], self.data[base + 2], self.data[base + 3]];
        proof {
            assert(r@ =~= self.spec_pixel_at(x as int, y as int));
        }
        r
    }
}

/// The four bytes of the pixel at `(x, y)` in a raw RGBA buffer of the
/// given row width.
pub open spec fn pixel_bytes(data: Seq<u8>, width: int, x: int, y: int) -> Seq<u8> {
    data.subrange((y * width + x) * 4, (y * width + x) * 4 + 4)
}

/// Distinct in-range pixel coordinates address disjoint byte ranges.
pub proof fn lemma_pixel_disjoint(width: int, x1: int, y1: int, x2: int, y2: int)
    requires
        0 <= x1 < width,
        0 <= x2 < width,
        0 <= y1,
        0 <= y2,
        !(x1 == x2 && y1 == y2),
    ensures
        y1 * width + x1 != y2 * width + x2,
{
    if y1 * width + x1 == y2 * width + x2 {
        vstd::arithmetic::div_mod::lemma_fundamental_div_mod_converse(
            y1 * width + x1,
            width,
            y1,
            x1,
        );
        vstd::arithmetic::div_mod::lemma_fundamental_div_mod_converse(
            y2 * width + x2,
            width,
            y2,
            x2,
        );
        assert(width * y1 == y1 * width && width * y2 == y2 * width) by (nonlinear_arith);
    }
}

/// What one bounds-checked write does to every pixel: the target takes the
/// color, every other pixel keeps its bytes.
pub proof fn lemma_write_pixel_effect(f: Frame, x: int, y: int, color: [u8; 4])
    requires
        f.wf(),
    ensures
        f.spec_write_pixel(x, y, color).len() == f.data@.len(),
        0 <= x < f.width && 0 <= y < f.height ==> pixel_bytes(
            f.spec_write_pixel(x, y, color),
            f.width as int,
            x,
            y,
        ) == color@,
        forall|xx: int, yy: int|
            0 <= xx < f.width && 0 <= yy < f.height && !(xx == x && yy == y)
                ==> #[trigger] pixel_bytes(f.spec_write_pixel(x, y, color), f.width as int, xx, yy)
                == pixel_bytes(f.data@, f.width as int, xx, yy),
{
    let nd = f.spec_write_pixel(x, y, color);
    let w = f.width as int;
    if 0 <= x < f.width && 0 <= y < f.height {
        f.lemma_pixel_index_in_range(x, y);
        let base = (y * w + x) * 4;
        assert(pixel_bytes(nd, w, x, y) =~= color@);
        assert forall|xx: int, yy: int|
            0 <= xx < f.width && 0 <= yy < f.height && !(xx == x && yy == y) implies #[trigger]
        pixel_bytes(nd, w, xx, yy) == pixel_bytes(f.data@, w, xx, yy) by {
            f.lemma_pixel_index_in_range(xx, yy);
            lemma_pixel_disjoint(w, xx, yy, x, y);
            let q1 = yy * w + xx;
            let q2 = y * w + x;
            assert(q1 * 4 + 4 <= q2 * 4 || q2 * 4 + 4 <= q1 * 4) by (nonlinear_arith)
                requires
                    q1 != q2,
            ;
            assert(pixel_bytes(nd, w, xx, yy) =~= pixel_bytes(f.data@, w, xx, yy));
        }
    } else {
        assert forall|xx: int, yy: int|
            0 <= xx < f.width && 0 <= yy < f.height && !(xx == x && yy == y) implies #[trigger]
        pixel_bytes(nd, w, xx, yy) == pixel_bytes(f.data@, w, xx, yy) by {
            assert(nd == f.data@);
        }
    }
}

} // verus!
