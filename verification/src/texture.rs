//! Decoded textures and per-pixel sampling.
//!
//! A texture is a raw pixel buffer with 1, 3 or 4 channels. Sampling wraps
//! both coordinates (Euclidean modulo, so negative coordinates wrap too),
//! flips v to match the bottom-left image origin, and subtracts a per-surface
//! shade from each color channel, clamped at zero.

use vstd::prelude::*;
use crate::math::Vec2;

verus! {

/// A decoded image: dimensions, channel count and the raw bytes.
#[derive(Debug, Clone)]
pub struct Texture {
    pub dimensions: Vec2,
    pub channels: u8,
    pub data: Vec<u8>,
}

impl Texture {
    /// Nonempty dimensions (bounded by the 16-bit sizes the image format
    /// carries), a supported channel count, and a buffer of exactly
    /// `width * height * channels` bytes.
    pub open spec fn wf(self) -> bool {
        &&& 1 <= self.dimensions.x <= 0xFFFF
        &&& 1 <= self.dimensions.y <= 0xFFFF
        &&& (self.channels == 1 || self.channels == 3 || self.channels == 4)
        &&& self.data.len() == self.dimensions.x * self.dimensions.y * self.channels
    }

    /// Byte offset of the first channel of the texel at `(x, y)`.
    pub open spec fn spec_pixel_index(self, x: int, y: int) -> int {
        y * (self.dimensions.x * self.channels) + x * self.channels
    }

    /// The texel start plus its channels stays inside the buffer.
    pub proof fn lemma_pixel_index_in_range(self, x: int, y: int)
        requires
            self.wf(),
            0 <= x < self.dimensions.x,
            0 <= y < self.dimensions.y,
        ensures
            0 <= self.spec_pixel_index(x, y),
            self.spec_pixel_index(x, y) + self.channels <= self.data.len(),
    {
        let w = self.dimensions.x as int;
        let h = self.dimensions.y as int;
        let c = self.channels as int;
        assert(0 <= y * (w * c) + x * c && y * (w * c) + x * c + c <= h * (w * c))
            by (nonlinear_arith)
            requires
                0 <= x,
                x + 1 <= w,
                0 <= y,
                y + 1 <= h,
                1 <= c,
        ;
        assert(h * (w * c) == w * h * c) by (nonlinear_arith);
    }

    /// Bytes in one row of texels.
    pub fn row_size(&self) -> (r: usize)
        requires
            self.wf(),
        ensures
            r == self.dimensions.x * self.channels,
    {
        proof {
            crate::math::lemma_mul_abs_bound(
                self.dimensions.x as int,
                self.channels as int,
                0x1_0000,
                4,
            );
        }
        (self.dimensions.x as usize) * (self.channels as usize)
    }

    /// Byte offset of the first channel of the texel at `(x, y)`.
    pub fn pixel_index(&self, x: usize, y: usize) -> (r: usize)
        requires
            self.wf(),
            x < self.dimensions.x,
            y < self.dimensions.y,
        ensures
            r == self.spec_pixel_index(x as int, y as int),
            r + self.channels <= self.data.len(),
    {
        let dlen = self.data.len();
        let row = self.row_size();
        proof {
            self.lemma_pixel_index_in_range(x as int, y as int);
            crate::math::lemma_mul_congruence(
                y as int,
                row as int,
                y as int,
                (self.dimensions.x * self.channels) as int,
            );
            crate::math::lemma_mul_congruence(
                x as int,
                (self.channels as usize) as int,
                x as int,
                self.channels as int,
            );
            assert(y as int * (row as int) >= 0 && x as int * (self.channels as int) >= 0)
                by (nonlinear_arith)
                requires
                    y >= 0,
                    row >= 0,
                    x >= 0,
                    self.channels >= 0,
            ;
        }
        y * row + x * (self.channels as usize)
    }

    /// The texel's channels, padded with `0xff` up to `CHANNELS` entries.
    pub fn fix_pixel<const CHANNELS: usize>(&self, x: usize, y: usize) -> (colors: [u8; CHANNELS])
        requires
            self.wf(),
            x < self.dimensions.x,
            y < self.dimensions.y,
            self.channels <= CHANNELS,
        ensures
            forall|c: int|
                0 <= c < self.channels ==> colors[c] == self.data[self.spec_pixel_index(
                    x as int,
                    y as int,
                ) + c],
            forall|c: int| self.channels <= c < CHANNELS ==> colors[c] == 0xff,
    {
        let mut colors: [u8; CHANNELS] = [0xff; CHANNELS];
        let pindex = self.pixel_index(x, y);
        let mut c: usize = 0;
        while c < self.channels as usize
            invariant
                self.wf(),
                x < self.dimensions.x,
                y < self.dimensions.y,
                self.channels <= CHANNELS,
                c <= self.channels,
                pindex == self.spec_pixel_index(x as int, y as int),
                pindex + self.channels <= self.data.len(),
                forall|j: int|
                    0 <= j < c ==> colors[j] == self.data[self.spec_pixel_index(x as int, y as int)
                        + j],
                forall|j: int| c <= j < CHANNELS ==> colors[j] == 0xff,
            decreases self.channels - c,
        {
            colors[c] = self.data[pindex + c];
            c = c + 1;
        }
        colors
    }

    /// A borrowed view of the texel's channels.
    pub fn pixel(&self, x: usize, y: usize) -> (r: &[u8])
        requires
            self.wf(),
            x < self.dimensions.x,
            y < self.dimensions.y,
        ensures
            r@ == self.data@.subrange(
                self.spec_pixel_index(x as int, y as int),
                self.spec_pixel_index(x as int, y as int) + self.channels,
            ),
    {
        let index = self.pixel_index(x, y);
        let end_index = index + self.channels as usize;
        vstd::slice::slice_subrange(self.data.as_slice(), index, end_index)
    }

    /// The texel column for an unbounded u coordinate: Euclidean wrap.
    pub open spec fn spec_wrap_u(self, u: int) -> int {
        u % (self.dimensions.x as int)
    }

    /// The texel row for an unbounded v coordinate: flipped to the
    /// bottom-left origin, then wrapped.
    pub open spec fn spec_wrap_v(self, v: int) -> int {
        (self.dimensions.y - v - 1) % (self.dimensions.y as int)
    }

    /// One channel after the shade bias: `c - shade`, clamped at zero.
    pub open spec fn spec_shade(c: u8, shade: u8) -> u8 {
        if c >= shade {
            (c - shade) as u8
        } else {
            0
        }
    }

    /// What sampling returns: the wrapped texel's RGB channels shaded, and
    /// its alpha (opaque when the texture has none).
    pub open spec fn spec_sample(self, u: int, v: int, shade: u8) -> Seq<u8> {
        let idx = self.spec_pixel_index(self.spec_wrap_u(u), self.spec_wrap_v(v));
        if self.channels == 1 {
            seq![
                Self::spec_shade(self.data[idx], shade),
                Self::spec_shade(self.data[idx], shade),
                Self::spec_shade(self.data[idx], shade),
                0xff,
            ]
        } else {
            seq![
                Self::spec_shade(self.data[idx], shade),
                Self::spec_shade(self.data[idx + 1], shade),
                Self::spec_shade(self.data[idx + 2], shade),
                if self.channels == 4 {
                    self.data[idx + 3]
                } else {
                    0xff
                },
            ]
        }
    }

    /// Euclidean remainder of `a` by a positive modulus.
    fn rem_euclid_pos(a: i32, m: i32) -> (r: i32)
        requires
            m > 0,
        ensures
            r == a as int % m as int,
            0 <= r < m,
    {
        match a.checked_rem_euclid(m) {
            Some(r) => r,
            None => 0,
        }
    }

    /// A borrowed view of the texel addressed by wrapped uv coordinates.
    pub fn uv_pixel(&self, u: i32, v: i32) -> (r: &[u8])
        requires
            self.wf(),
        ensures
            r@ == self.data@.subrange(
                self.spec_pixel_index(self.spec_wrap_u(u as int), self.spec_wrap_v(v as int)),
                self.spec_pixel_index(self.spec_wrap_u(u as int), self.spec_wrap_v(v as int))
                    + self.channels,
            ),
    {
        let ui = Self::rem_euclid_pos(u, self.dimensions.x);
        let flipped = (self.dimensions.y as i64) - (v as i64) - 1;
        let vi = Self::rem_euclid_pos_i64(flipped, self.dimensions.y);
        self.pixel(ui as usize, vi as usize)
    }

    /// Euclidean remainder for a 64-bit dividend and a positive 32-bit
    /// modulus.
    fn rem_euclid_pos_i64(a: i64, m: i32) -> (r: i32)
        requires
            m > 0,
        ensures
            r == a as int % m as int,
            0 <= r < m,
    {
        let rr = match a.checked_rem_euclid(m as i64) {
            Some(r) => r,
            None => 0,
        };
        rr as i32
    }

    /// Samples the texel addressed by wrapped uv coordinates, applying the
    /// shade bias; always returns an RGBA quadruple.
    pub fn uv_pixel_shade(&self, u: i32, v: i32, shade: u8) -> (r: [u8; 4])
        requires
            self.wf(),
        ensures
            r@ == self.spec_sample(u as int, v as int, shade),
    {
        let ui = Self::rem_euclid_pos(u, self.dimensions.x);
        let flipped = (self.dimensions.y as i64) - (v as i64) - 1;
        let vi = Self::rem_euclid_pos_i64(flipped, self.dimensions.y);
        let index = self.pixel_index(ui as usize, vi as usize);
        proof {
            self.lemma_pixel_index_in_range(ui as int, vi as int);
        }
        let out: [u8; 4] = if self.channels == 1 {
            let g = Self::shade_channel(self.data[index], shade);
            [g, g, g, 0xff]
        } else if self.channels == 3 {
            [
                Self::shade_channel(self.data[index], shade),
                Self::shade_channel(self.data[index + 1], shade),
                Self::shade_channel(self.data[index + 2], shade),
                0xff,
            ]
        } else {
            [
                Self::shade_channel(self.data[index], shade),
                Self::shade_channel(self.data[index + 1], shade),
                Self::shade_channel(self.data[index + 2], shade),
                self.data[index + 3],
            ]
        };
        proof {
            assert(out@ =~= self.spec_sample(u as int, v as int, shade));
        }
        out
    }

    /// One channel minus the shade bias, clamped at zero.
    fn shade_channel(c: u8, shade: u8) -> (r: u8)
        ensures
            r == Self::spec_shade(c, shade),
    {
        if c >= shade {
            c - shade
        } else {
            0
        }
    }
}

/// Sampling wraps: shifting u by the texture width or v by the texture
/// height addresses the same texel.
pub proof fn lemma_sample_wraps(t: Texture, u: int, v: int, shade: u8)
    requires
        t.wf(),
    ensures
        t.spec_sample(u + t.dimensions.x, v, shade) == t.spec_sample(u, v, shade),
        t.spec_sample(u, v + t.dimensions.y, shade) == t.spec_sample(u, v, shade),
{
    let w = t.dimensions.x as int;
    let h = t.dimensions.y as int;
    vstd::arithmetic::div_mod::lemma_mod_add_multiples_vanish(u, w);
    vstd::arithmetic::div_mod::lemma_mod_sub_multiples_vanish(h - v - 1, h);
    assert(t.spec_wrap_u(u + w) == t.spec_wrap_u(u));
    assert(t.spec_wrap_v(v + h) == t.spec_wrap_v(v));
    assert(t.spec_sample(u + w, v, shade) =~= t.spec_sample(u, v, shade));
    assert(t.spec_sample(u, v + h, shade) =~= t.spec_sample(u, v, shade));
}

impl Texture {
    /// Adopts a decoded image whose format stores one byte per logical
    /// channel (greyscale, RGB or RGBA); packed formats are refused.
    pub fn from_tga(img: crate::tga::TgaImage) -> (r: Option<Texture>)
        ensures
            match r {
                Some(t) => {
                    &&& t.wf()
                    &&& t.dimensions.x == img.width
                    &&& t.dimensions.y == img.height
                    &&& t.channels == img.format
                    &&& t.data == img.data
                },
                None => !(
                (img.format == 1 || img.format == 3 || img.format == 4) && 1 <= img.width <= 0xFFFF
                    && 1 <= img.height <= 0xFFFF && img.data.len() == img.width * img.height
                    * img.format),
            },
    {
        if !(img.format == 1 || img.format == 3 || img.format == 4) {
            return None;
        }
        if img.width < 1 || img.width > 0xFFFF || img.height < 1 || img.height > 0xFFFF {
            return None;
        }
        let w64: u64 = img.width as u64;
        let h64: u64 = img.height as u64;
        let f64v: u64 = img.format as u64;
        proof {
            crate::math::lemma_mul_abs_bound(w64 as int, h64 as int, 0xFFFF, 0xFFFF);
            crate::math::lemma_mul_abs_bound((w64 * h64) as int, f64v as int, 0xFFFE_0001, 4);
            crate::math::lemma_mul_congruence(
                w64 as int,
                h64 as int,
                img.width as int,
                img.height as int,
            );
            crate::math::lemma_mul_congruence(
                (w64 * h64) as int,
                f64v as int,
                (img.width * img.height) as int,
                img.format as int,
            );
        }
        let expected64: u64 = w64 * h64 * f64v;
        if (img.data.len() as u64) != expected64 {
            return None;
        }
        Some(
            Texture {
                dimensions: Vec2 { x: img.width as i32, y: img.height as i32 },
                channels: img.format,
                data: img.data,
            },
        )
    }
}

/// The texture collection, indexed by the ids that materials carry.
#[derive(Debug, Clone)]
pub struct TextureSet {
    pub set: Vec<Texture>,
}

impl TextureSet {
    /// Every texture in the set is well formed.
    pub open spec fn wf(self) -> bool {
        forall|i: int| 0 <= i < self.set.len() ==> (#[trigger] self.set[i]).wf()
    }

    /// An empty set, ready to be filled by the image loader.
    pub fn new() -> (t: Self)
        ensures
            t.wf(),
            t.set.len() == 0,
    {
        TextureSet { set: Vec::new() }
    }
}

} // verus!
