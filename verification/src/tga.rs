//! Decoder for run-length-or-raw encoded true-color image byte streams.
//!
//! The stream starts with an 18-byte header; the pixel data follows either
//! raw or as RLE chunks. Decoding rejects malformed streams instead of
//! failing midway: a well-formed result always holds exactly
//! `width * height * bytes_per_pixel` bytes.

use vstd::prelude::*;

verus! {

pub const TGA_FORMAT_R8: u8 = 1;

pub const TGA_FORMAT_RGB5A1: u8 = 2;

pub const TGA_FORMAT_RGB8: u8 = 3;

pub const TGA_FORMAT_RGBA8: u8 = 4;

pub const TGA_IMAGE_TYPE_RGB: u8 = 2;

pub const TGA_IMAGE_TYPE_RGB_RLE: u8 = 10;

pub const VERTICAL_FLIP_MASK: u8 = 0b00100000;

pub const HORIZONTAL_FLIP_MASK: u8 = 0b00010000;

/// The fixed-size stream header.
#[derive(Debug, Clone, Copy, PartialEq, Eq, Structural)]
pub struct TgaHeader {
    pub identsize: u8,
    pub colourmaptype: u8,
    pub imagetype: u8,
    pub colourmapstart: u16,
    pub colourmaplength: u16,
    pub colourmapbits: u8,
    pub xstart: u16,
    pub ystart: u16,
    pub width: u16,
    pub height: u16,
    pub bits: u8,
    pub descriptor: u8,
}

/// A little-endian 16-bit value from two bytes.
pub open spec fn spec_u16_le(lo: u8, hi: u8) -> int {
    lo + 256 * hi
}

/// Reads the 18-byte header off the front of the stream.
pub fn parse_tga_header(bytes: &[u8]) -> (r: Option<TgaHeader>)
    ensures
        match r {
            Some(h) => {
                &&& bytes@.len() >= 18
                &&& h.identsize == bytes[0]
                &&& h.colourmaptype == bytes[1]
                &&& h.imagetype == bytes[2]
                &&& h.colourmapstart == spec_u16_le(bytes[3], bytes[4])
                &&& h.colourmaplength == spec_u16_le(bytes[5], bytes[6])
                &&& h.colourmapbits == bytes[7]
                &&& h.xstart == spec_u16_le(bytes[8], bytes[9])
                &&& h.ystart == spec_u16_le(bytes[10], bytes[11])
                &&& h.width == spec_u16_le(bytes[12], bytes[13])
                &&& h.height == spec_u16_le(bytes[14], bytes[15])
                &&& h.bits == bytes[16]
                &&& h.descriptor == bytes[17]
            },
            None => bytes@.len() < 18,
        },
{
    if bytes.len() < 18 {
        return None;
    }
    Some(
        TgaHeader {
            identsize: bytes[0],
            colourmaptype: bytes[1],
            imagetype: bytes[2],
            colourmapstart: (bytes[3] as u16) + 256 * (bytes[4] as u16),
            colourmaplength: (bytes[5] as u16) + 256 * (bytes[6] as u16),
            colourmapbits: bytes[7],
            xstart: (bytes[8] as u16) + 256 * (bytes[9] as u16),
            ystart: (bytes[10] as u16) + 256 * (bytes[11] as u16),
            width: (bytes[12] as u16) + 256 * (bytes[13] as u16),
            height: (bytes[14] as u16) + 256 * (bytes[15] as u16),
            bits: bytes[16],
            descriptor: bytes[17],
        },
    )
}

/// Whether the stream stores its rows top-down (so they must be flipped to
/// the bottom-left origin the renderer samples with).
pub fn vertical_flip(tga_h: &TgaHeader) -> (r: bool)
    ensures
        r == (tga_h.descriptor & VERTICAL_FLIP_MASK != 0),
{
    tga_h.descriptor & VERTICAL_FLIP_MASK != 0
}

/// Whether the stream stores its rows right-to-left.
pub fn horizontal_flip(tga_h: &TgaHeader) -> (r: bool)
    ensures
        r == (tga_h.descriptor & HORIZONTAL_FLIP_MASK != 0),
{
    tga_h.descriptor & HORIZONTAL_FLIP_MASK != 0
}

/// `p` repeated `n` times.
pub open spec fn seq_repeat(p: Seq<u8>, n: nat) -> Seq<u8>
    decreases n,
{
    if n == 0 {
        Seq::empty()
    } else {
        seq_repeat(p, (n - 1) as nat) + p
    }
}

pub proof fn lemma_seq_repeat_len(p: Seq<u8>, n: nat)
    ensures
        seq_repeat(p, n).len() == n * p.len(),
    decreases n,
{
    if n > 0 {
        lemma_seq_repeat_len(p, (n - 1) as nat);
        assert(seq_repeat(p, n).len() == n * p.len()) by (nonlinear_arith)
            requires
                n >= 1,
                ((n - 1) as nat) == n - 1,
                seq_repeat(p, n).len() == seq_repeat(p, (n - 1) as nat).len() + p.len(),
                seq_repeat(p, (n - 1) as nat).len() == ((n - 1) as nat) * p.len(),
        ;
    } else {
        assert(seq_repeat(p, n).len() == n * p.len()) by (nonlinear_arith)
            requires
                n == 0,
                seq_repeat(p, n).len() == 0,
        ;
    }
}

/// What decoding the RLE stream `inp` into `need` bytes of `bpp`-byte pixels
/// yields: `None` when the stream ends early or a chunk would overrun the
/// target size.
pub open spec fn spec_rle(inp: Seq<u8>, bpp: nat, need: nat) -> Option<Seq<u8>>
    decreases inp.len(),
{
    if need == 0 {
        Some(Seq::empty())
    } else if inp.len() == 0 {
        None
    } else {
        let header = inp[0];
        if header >= 0x80 {
            // RLE chunk: [len | pixel], the pixel repeated (header - 127) times.
            let n = (header - 127) as nat;
            if inp.len() < 1 + bpp {
                None
            } else if n * bpp > need {
                None
            } else {
                let pixel = inp.subrange(1, 1 + bpp as int);
                match spec_rle(inp.skip(1 + bpp as int), bpp, (need - n * bpp) as nat) {
                    Some(rest) => Some(seq_repeat(pixel, n) + rest),
                    None => None,
                }
            }
        } else {
            // Raw chunk: [len | pixel | pixel | ...], (header + 1) pixels.
            let n = (header + 1) as nat;
            if inp.len() < 1 + n * bpp {
                None
            } else if n * bpp > need {
                None
            } else {
                match spec_rle(inp.skip(1 + (n * bpp) as int), bpp, (need - n * bpp) as nat) {
                    Some(rest) => Some(inp.subrange(1, 1 + (n * bpp) as int) + rest),
                    None => None,
                }
            }
        }
    }
}

/// Expands an RLE pixel stream to `width * height` pixels of
/// `image_bytes_pixel` bytes each.
#[verifier::rlimit(80)]
pub fn decoder_rle(width: usize, height: usize, image_bytes_pixel: usize, buffer_in: &[u8]) -> (r:
    Option<Vec<u8>>)
    requires
        1 <= image_bytes_pixel <= 4,
        width * height * image_bytes_pixel <= usize::MAX,
    ensures
        match r {
            Some(v) => Some(v@) == spec_rle(
                buffer_in@,
                image_bytes_pixel as nat,
                (width * height * image_bytes_pixel) as nat,
            ),
            None => spec_rle(
                buffer_in@,
                image_bytes_pixel as nat,
                (width * height * image_bytes_pixel) as nat,
            ) is None,
        },
{
    let ghost bpp = image_bytes_pixel as nat;
    proof {
        assert(width * height <= usize::MAX && width * (height * image_bytes_pixel)
            <= usize::MAX) by (nonlinear_arith)
            requires
                1 <= image_bytes_pixel,
                0 <= width,
                0 <= height,
                width * height * image_bytes_pixel <= usize::MAX,
        ;
    }
    let total: usize = width * height * image_bytes_pixel;
    proof {
        assert(total == width * height * image_bytes_pixel);
        assert(total as nat == (width * height * image_bytes_pixel) as nat);
    }
    let ghost goal = spec_rle(buffer_in@, bpp, total as nat);
    proof {
        assert(goal == spec_rle(
            buffer_in@,
            image_bytes_pixel as nat,
            (width * height * image_bytes_pixel) as nat,
        ));
    }
    let mut out: Vec<u8> = Vec::new();
    let mut idx: usize = 0;
    proof {
        assert(buffer_in@.skip(0) =~= buffer_in@);
        if spec_rle(buffer_in@, bpp, total as nat) is Some {
            assert(Seq::<u8>::empty() + spec_rle(buffer_in@, bpp, total as nat)->Some_0
                =~= spec_rle(buffer_in@, bpp, total as nat)->Some_0);
        }
    }
    while out.len() < total
        invariant
            1 <= image_bytes_pixel <= 4,
            bpp == image_bytes_pixel,
            goal == spec_rle(buffer_in@, bpp, total as nat),
            goal == spec_rle(
                buffer_in@,
                image_bytes_pixel as nat,
                (width * height * image_bytes_pixel) as nat,
            ),
            idx <= buffer_in.len(),
            out.len() <= total,
            goal == (match spec_rle(buffer_in@.skip(idx as int), bpp, (total - out.len()) as nat) {
                Some(rest) => Some(out@ + rest),
                None => None::<Seq<u8>>,
            }),
        decreases total - out.len(),
    {
        let ghost inp = buffer_in@.skip(idx as int);
        let ghost need = (total - out.len()) as nat;
        if idx >= buffer_in.len() {
            assert(inp.len() == 0);
            assert(spec_rle(inp, bpp, need) is None);
            return None;
        }
        let header_byte = buffer_in[idx];
        assert(inp[0] == header_byte);
        let is_rle_chunk = header_byte & 0x80 != 0;
        proof {
            assert((header_byte & 0x80 != 0) == (header_byte >= 0x80)) by (bit_vector);
        }
        if is_rle_chunk {
            // RLE chunk: one pixel, repeated.
            let length_chunk: usize = (header_byte as usize) - 127;
            if buffer_in.len() - idx < 1 + image_bytes_pixel {
                assert(inp.len() < 1 + bpp);
                assert(spec_rle(inp, bpp, need) is None);
                return None;
            }
            let run: usize = length_chunk * image_bytes_pixel;
            if run > total - out.len() {
                proof {
                    crate::math::lemma_mul_congruence(
                        length_chunk as int,
                        image_bytes_pixel as int,
                        (header_byte - 127) as int,
                        bpp as int,
                    );
                    assert(spec_rle(inp, bpp, need) is None);
                }
                return None;
            }
            proof {
                crate::math::lemma_mul_congruence(
                    length_chunk as int,
                    image_bytes_pixel as int,
                    (header_byte - 127) as int,
                    bpp as int,
                );
                assert(length_chunk * image_bytes_pixel >= 1 * 1) by (nonlinear_arith)
                    requires
                        length_chunk >= 1,
                        image_bytes_pixel >= 1,
                ;
            }
            let ghost pixel = inp.subrange(1, 1 + bpp as int);
            let ghost out_before = out@;
            let mut k: usize = 0;
            while k < length_chunk
                invariant
                    k <= length_chunk,
                    1 <= image_bytes_pixel <= 4,
                    bpp == image_bytes_pixel,
                    idx + 1 + image_bytes_pixel <= buffer_in.len(),
                    inp == buffer_in@.skip(idx as int),
                    pixel == inp.subrange(1, 1 + bpp as int),
                    out@ == out_before + seq_repeat(pixel, k as nat),
                    out.len() == out_before.len() + k * image_bytes_pixel,
                decreases length_chunk - k,
            {
                proof {
                    lemma_seq_repeat_len(pixel, k as nat);
                    lemma_seq_repeat_len(pixel, (k + 1) as nat);
                }
                let mut j: usize = 0;
                while j < image_bytes_pixel
                    invariant
                        j <= image_bytes_pixel,
                        1 <= image_bytes_pixel <= 4,
                        bpp == image_bytes_pixel,
                        idx + 1 + image_bytes_pixel <= buffer_in.len(),
                        inp == buffer_in@.skip(idx as int),
                        pixel == inp.subrange(1, 1 + bpp as int),
                        out@ == out_before + seq_repeat(pixel, k as nat) + pixel.subrange(
                            0,
                            j as int,
                        ),
                    decreases image_bytes_pixel - j,
                {
                    let b = buffer_in[idx + 1 + j];
                    assert(pixel[j as int] == b);
                    out.push(b);
                    proof {
                        assert(pixel.subrange(0, (j + 1) as int) =~= pixel.subrange(
                            0,
                            j as int,
                        ).push(b));
                    }
                    j = j + 1;
                }
                proof {
                    assert(pixel.subrange(0, bpp as int) =~= pixel);
                    assert(out_before + seq_repeat(pixel, k as nat) + pixel =~= out_before
                        + seq_repeat(pixel, (k + 1) as nat));
                    assert((k + 1) * image_bytes_pixel == k * image_bytes_pixel
                        + image_bytes_pixel) by (nonlinear_arith);
                }
                k = k + 1;
            }
            proof {
                lemma_seq_repeat_len(pixel, length_chunk as nat);
                assert(buffer_in@.skip(idx as int).skip(1 + bpp as int) =~= buffer_in@.skip(
                    idx + 1 + bpp as int,
                ));
                let rest_need = (need - (header_byte - 127) * bpp) as nat;
                match spec_rle(buffer_in@.skip(idx + 1 + bpp as int), bpp, rest_need) {
                    Some(rest) => {
                        assert(out_before + seq_repeat(pixel, length_chunk as nat) + rest
                            =~= out_before + (seq_repeat(pixel, length_chunk as nat) + rest));
                    },
                    None => {},
                }
            }
            idx = idx + 1 + image_bytes_pixel;
        } else {
            // Raw chunk: copy the pixels through.
            let length_chunk: usize = (header_byte as usize) + 1;
            let run: usize = length_chunk * image_bytes_pixel;
            proof {
                crate::math::lemma_mul_congruence(
                    length_chunk as int,
                    image_bytes_pixel as int,
                    (header_byte + 1) as int,
                    bpp as int,
                );
                assert(length_chunk * image_bytes_pixel >= 1 * 1) by (nonlinear_arith)
                    requires
                        length_chunk >= 1,
                        image_bytes_pixel >= 1,
                ;
            }
            if buffer_in.len() - idx < 1 + run {
                assert(inp.len() < 1 + ((header_byte + 1) as nat) * bpp);
                assert(spec_rle(inp, bpp, need) is None);
                return None;
            }
            if run > total - out.len() {
                assert(spec_rle(inp, bpp, need) is None);
                return None;
            }
            let ghost chunk = inp.subrange(1, 1 + ((header_byte + 1) as nat) * bpp as int);
            let ghost out_before = out@;
            let mut j: usize = 0;
            while j < run
                invariant
                    j <= run,
                    run == length_chunk * image_bytes_pixel,
                    run >= 1,
                    idx + 1 + run <= buffer_in.len(),
                    inp == buffer_in@.skip(idx as int),
                    chunk == inp.subrange(1, 1 + run as int),
                    out@ == out_before + chunk.subrange(0, j as int),
                decreases run - j,
            {
                let b = buffer_in[idx + 1 + j];
                assert(chunk[j as int] == b);
                out.push(b);
                proof {
                    assert(chunk.subrange(0, (j + 1) as int) =~= chunk.subrange(0, j as int).push(
                        b,
                    ));
                }
                j = j + 1;
            }
            proof {
                assert(chunk.subrange(0, run as int) =~= chunk);
                assert(buffer_in@.skip(idx as int).skip(1 + run as int) =~= buffer_in@.skip(
                    idx + 1 + run as int,
                ));
                let rest_need = (need - (header_byte + 1) * bpp) as nat;
                match spec_rle(buffer_in@.skip(idx + 1 + run as int), bpp, rest_need) {
                    Some(rest) => {
                        assert(out_before + chunk + rest =~= out_before + (chunk + rest));
                    },
                    None => {},
                }
            }
            idx = idx + 1 + run;
        }
    }
    proof {
        assert(spec_rle(buffer_in@.skip(idx as int), bpp, 0) == Some(Seq::<u8>::empty()));
        assert(out@ + Seq::<u8>::empty() =~= out@);
    }
    Some(out)
}


/// The channels packed in a 16-bit 5-5-5-1 pixel, extracted exactly as the
/// renderer's palette expects them.
pub open spec fn spec_read_rgba5551(b0: u8, b1: u8) -> (u8, u8, u8, u8) {
    (
        (b0 & 0xf8) >> 3,
        ((b0 & 0x07) << 2) | ((b1 & 0xfb) >> 6),
        (b1 & 0x3e) >> 1,
        b1 & 0x01,
    )
}

/// Unpacks one 5-5-5-1 pixel into its four channels.
pub fn read_rgba5551(b0: u8, b1: u8) -> (r: (u8, u8, u8, u8))
    ensures
        r == spec_read_rgba5551(b0, b1),
{
    (
        (b0 & 0xf8) >> 3,
        ((b0 & 0x07) << 2) | ((b1 & 0xfb) >> 6),
        (b1 & 0x3e) >> 1,
        b1 & 0x01,
    )
}

/// The two bytes of a 5-5-5-1 pixel after writing the given channels over
/// the previous bytes.
pub open spec fn spec_write_rgba5551(p0: u8, p1: u8, r: u8, g: u8, b: u8, a: u8) -> (u8, u8) {
    let o0 = (r << 3) | (p0 & 0x07);
    let o0 = ((g & 0x1c) >> 2) | (o0 & 0xf8);
    let o1 = ((g & 0x03) << 6) | (p1 & 0xf8);
    let o1 = (b << 1) | (o1 & 0xc1);
    let o1 = a | (o1 & 0xfe);
    (o0, o1)
}

/// Packs four channels into the two bytes of a 5-5-5-1 pixel.
pub fn write_rgba5551(p0: u8, p1: u8, r: u8, g: u8, b: u8, a: u8) -> (o: (u8, u8))
    ensures
        o == spec_write_rgba5551(p0, p1, r, g, b, a),
{
    let mut o0 = (r << 3) | (p0 & 0x07);
    o0 = ((g & 0x1c) >> 2) | (o0 & 0xf8);
    let mut o1 = ((g & 0x03) << 6) | (p1 & 0xf8);
    o1 = (b << 1) | (o1 & 0xc1);
    o1 = a | (o1 & 0xfe);
    (o0, o1)
}

/// A 5-5-5-1 pixel expanded to four 8-bit channels, each 5-bit channel
/// rescaled to the 0-255 range.
pub open spec fn spec_rgba32_pixel(b0: u8, b1: u8) -> Seq<u8> {
    let (r, g, b, a) = spec_read_rgba5551(b0, b1);
    seq![
        ((r * 255) / 31) as u8,
        ((g * 255) / 31) as u8,
        ((b * 255) / 31) as u8,
        (a * 255) as u8,
    ]
}

/// The four output bytes of pixel `i` in an expanded RGBA buffer.
pub open spec fn spec_rgba32_at(v: Seq<u8>, i: int) -> Seq<u8> {
    v.subrange(4 * i, 4 * i + 4)
}

/// Expands a buffer of 5-5-5-1 pixels into 8-bit RGBA; fails when the buffer
/// holds fewer than `width * height` pixels.
pub fn from_rgba5551_to_rgba_32(data: &[u8], width: usize, height: usize) -> (r: Option<Vec<u8>>)
    requires
        width * height <= 0x1000_0000,
    ensures
        match r {
            Some(v) => {
                &&& data@.len() >= 2 * (width * height)
                &&& v.len() == 4 * (width * height)
                &&& forall|i: int|
                    0 <= i < width * height ==> #[trigger] spec_rgba32_at(v@, i)
                        == spec_rgba32_pixel(data[2 * i], data[2 * i + 1])
            },
            None => data@.len() < 2 * (width * height),
        },
{
    let count: usize = width * height;
    if data.len() < 2 * count {
        return None;
    }
    let mut output: Vec<u8> = Vec::new();
    let mut i: usize = 0;
    while i < count
        invariant
            count == width * height,
            count <= 0x1000_0000,
            data@.len() >= 2 * count,
            i <= count,
            output.len() == 4 * i,
            forall|k: int|
                0 <= k < i ==> #[trigger] spec_rgba32_at(output@, k) == spec_rgba32_pixel(
                    data[2 * k],
                    data[2 * k + 1],
                ),
        decreases count - i,
    {
        let b0 = data[2 * i];
        let b1 = data[2 * i + 1];
        let (r, g, b, a) = read_rgba5551(b0, b1);
        proof {
            assert((b0 & 0xf8) >> 3 < 32 && (((b0 & 0x07) << 2) | ((b1 & 0xfb) >> 6)) < 32 && (b1
                & 0x3e) >> 1 < 32 && b1 & 0x01 < 2) by (bit_vector);
        }
        let ghost before = output@;
        output.push((((r as u16) * 255) / 31) as u8);
        output.push((((g as u16) * 255) / 31) as u8);
        output.push((((b as u16) * 255) / 31) as u8);
        output.push(((a as u16) * 255) as u8);
        proof {
            assert(spec_rgba32_at(output@, i as int) =~= spec_rgba32_pixel(b0, b1));
            assert forall|k: int| 0 <= k < i implies #[trigger] spec_rgba32_at(output@, k)
                == spec_rgba32_pixel(data[2 * k], data[2 * k + 1]) by {
                assert(spec_rgba32_at(output@, k) =~= spec_rgba32_at(before, k));
            }
        }
        i = i + 1;
    }
    Some(output)
}

/// One 5-5-5-1 pixel with its red and blue channels exchanged.
pub open spec fn spec_swap16_pixel(b0: u8, b1: u8) -> (u8, u8) {
    let (r, g, b, a) = spec_read_rgba5551(b0, b1);
    spec_write_rgba5551(b0, b1, b, g, r, a)
}

/// Byte `j` of a 5-5-5-1 buffer of `n` pixels after the red/blue exchange;
/// bytes past the pixel area keep their value.
pub open spec fn spec_swap16_at(s: Seq<u8>, n: int, j: int) -> u8 {
    if j < 2 * n {
        let i = j / 2;
        let p = spec_swap16_pixel(s[2 * i], s[2 * i + 1]);
        if j % 2 == 0 {
            p.0
        } else {
            p.1
        }
    } else {
        s[j]
    }
}

/// Swaps red and blue over a buffer of 5-5-5-1 pixels.
pub fn rga_swap_r_and_b_16(bytes: &mut Vec<u8>, width: usize, height: usize)
    requires
        2 * (width * height) <= old(bytes)@.len(),
    ensures
        final(bytes)@.len() == old(bytes)@.len(),
        forall|j: int|
            0 <= j < old(bytes)@.len() ==> #[trigger] final(bytes)[j] == spec_swap16_at(
                old(bytes)@,
                (width * height) as int,
                j,
            ),
{
    let blen = bytes.len();
    proof {
        assert(0 <= width * height) by (nonlinear_arith)
            requires
                width >= 0,
                height >= 0,
        ;
    }
    let image_size: usize = width * height;
    let ghost n = image_size as int;
    let mut out: Vec<u8> = Vec::new();
    let mut i: usize = 0;
    while i < image_size
        invariant
            n == image_size == width * height,
            2 * image_size <= bytes@.len(),
            i <= image_size,
            out.len() == 2 * i,
            forall|j: int| 0 <= j < out.len() ==> #[trigger] out[j] == spec_swap16_at(bytes@, n, j),
        decreases image_size - i,
    {
        let b0 = bytes[2 * i];
        let b1 = bytes[2 * i + 1];
        let (r, g, b, a) = read_rgba5551(b0, b1);
        let (o0, o1) = write_rgba5551(b0, b1, b, g, r, a);
        out.push(o0);
        out.push(o1);
        i = i + 1;
    }
    let mut j: usize = 2 * image_size;
    while j < bytes.len()
        invariant
            n == image_size,
            2 * image_size <= bytes@.len(),
            2 * image_size <= j <= bytes@.len(),
            out.len() == j,
            forall|k: int| 0 <= k < out.len() ==> #[trigger] out[k] == spec_swap16_at(bytes@, n, k),
        decreases bytes@.len() - j,
    {
        let b = bytes[j];
        out.push(b);
        j = j + 1;
    }
    *bytes = out;
}

/// Byte `j` of a `bpp`-byte-pixel buffer of `n` pixels after the red/blue
/// exchange; bytes past the pixel area keep their value.
pub open spec fn spec_swap_rb_at(s: Seq<u8>, bpp: int, n: int, j: int) -> u8 {
    if j < n * bpp {
        let c = j % bpp;
        if c == 0 {
            s[j + 2]
        } else if c == 2 {
            s[j - 2]
        } else {
            s[j]
        }
    } else {
        s[j]
    }
}

/// Swaps red and blue over a buffer of 3- or 4-byte pixels.
pub fn rga_swap_r_and_b_24_32(
    bytes: &mut Vec<u8>,
    image_bytes_pixel: usize,
    width: usize,
    height: usize,
)
    requires
        3 <= image_bytes_pixel <= 4,
        (width * height) * image_bytes_pixel <= old(bytes)@.len(),
    ensures
        final(bytes)@.len() == old(bytes)@.len(),
        forall|j: int|
            0 <= j < old(bytes)@.len() ==> #[trigger] final(bytes)[j] == spec_swap_rb_at(
                old(bytes)@,
                image_bytes_pixel as int,
                (width * height) as int,
                j,
            ),
{
    let blen: usize = bytes.len();
    proof {
        assert(0 <= width * height && width * height <= (width * height) * image_bytes_pixel)
            by (nonlinear_arith)
            requires
                width >= 0,
                height >= 0,
                image_bytes_pixel >= 1,
        ;
    }
    let image_size: usize = width * height;
    let ghost n = image_size as int;
    let ghost bpp = image_bytes_pixel as int;
    let mut out: Vec<u8> = Vec::new();
    let mut i: usize = 0;
    while i < image_size
        invariant
            n == image_size == width * height,
            3 <= bpp == image_bytes_pixel <= 4,
            blen == bytes@.len(),
            image_size * image_bytes_pixel <= bytes@.len(),
            i <= image_size,
            out.len() == i * image_bytes_pixel,
            forall|j: int|
                0 <= j < out.len() ==> #[trigger] out[j] == spec_swap_rb_at(bytes@, bpp, n, j),
        decreases image_size - i,
    {
        proof {
            assert(i * image_bytes_pixel + image_bytes_pixel <= blen && (i + 1)
                * image_bytes_pixel == i * image_bytes_pixel + image_bytes_pixel)
                by (nonlinear_arith)
                requires
                    0 <= i < image_size,
                    image_bytes_pixel >= 1,
                    image_size * image_bytes_pixel <= blen,
            ;
        }
        let idx = i * image_bytes_pixel;
        let v0 = bytes[idx + 2];
        let v1 = bytes[idx + 1];
        let v2 = bytes[idx];
        proof {
            assert(bpp * i == i as int * bpp) by (nonlinear_arith);
            vstd::arithmetic::div_mod::lemma_fundamental_div_mod_converse(idx as int, bpp, i as int, 0);
            vstd::arithmetic::div_mod::lemma_fundamental_div_mod_converse(idx + 1, bpp, i as int, 1);
            vstd::arithmetic::div_mod::lemma_fundamental_div_mod_converse(idx + 2, bpp, i as int, 2);
            if bpp == 4 {
                vstd::arithmetic::div_mod::lemma_fundamental_div_mod_converse(idx + 3, bpp, i as int, 3);
            }
        }
        out.push(v0);
        out.push(v1);
        out.push(v2);
        if image_bytes_pixel == 4 {
            let v3 = bytes[idx + 3];
            out.push(v3);
        }
        i = i + 1;
    }
    let mut j: usize = image_size * image_bytes_pixel;
    while j < bytes.len()
        invariant
            n == image_size,
            bpp == image_bytes_pixel,
            image_size * image_bytes_pixel <= j <= bytes@.len(),
            out.len() == j,
            forall|k: int|
                0 <= k < out.len() ==> #[trigger] out[k] == spec_swap_rb_at(bytes@, bpp, n, k),
        decreases bytes@.len() - j,
    {
        let b = bytes[j];
        out.push(b);
        j = j + 1;
    }
    *bytes = out;
}

/// Byte `j` of the buffer after the row order is reversed: row `y` holds
/// what row `h - 1 - y` held.
pub open spec fn spec_yflip_at(s: Seq<u8>, rl: int, h: int, j: int) -> u8 {
    s[(h - 1 - j / rl) * rl + j % rl]
}

/// Reverses the row order: row `y` ends up holding what row
/// `height - 1 - y` held.
pub fn image_y_flip(
    bytes: &mut Vec<u8>,
    image_bytes_pixel: usize,
    image_width: usize,
    image_height: usize,
)
    requires
        1 <= image_bytes_pixel <= 4,
        1 <= image_width * image_bytes_pixel <= 0x4_0000,
        old(bytes)@.len() == image_height * (image_width * image_bytes_pixel),
    ensures
        final(bytes)@.len() == old(bytes)@.len(),
        forall|j: int|
            0 <= j < old(bytes)@.len() ==> #[trigger] final(bytes)[j] == spec_yflip_at(
                old(bytes)@,
                (image_width * image_bytes_pixel) as int,
                image_height as int,
                j,
            ),
{
    let line_len: usize = image_width * image_bytes_pixel;
    let ghost rl = line_len as int;
    let ghost h = image_height as int;
    let blen: usize = bytes.len();
    let mut out: Vec<u8> = Vec::new();
    let mut y: usize = 0;
    while y < image_height
        invariant
            1 <= rl == line_len <= 0x4_0000,
            h == image_height,
            blen == bytes@.len(),
            bytes@.len() == h * rl,
            y <= h,
            out.len() == y * rl,
            forall|j: int|
                0 <= j < out.len() ==> #[trigger] out[j] == spec_yflip_at(bytes@, rl, h, j),
        decreases image_height - y,
    {
        let src_row = image_height - 1 - y;
        proof {
            assert((y + 1) * rl == y * rl + rl && (y + 1) * rl <= h * rl && src_row * line_len
                + line_len <= blen && src_row * line_len == (h - 1 - y) * rl)
                by (nonlinear_arith)
                requires
                    0 <= y < h,
                    1 <= rl,
                    rl == line_len,
                    h == image_height,
                    src_row == h - 1 - y,
                    blen == h * rl,
            ;
        }
        let src_start = src_row * line_len;
        let mut k: usize = 0;
        while k < line_len
            invariant
                1 <= rl == line_len,
                h == image_height,
                blen == bytes@.len(),
                bytes@.len() == h * rl,
                0 <= y < h,
                src_row == h - 1 - y,
                src_start == (h - 1 - y) * rl,
                src_start + rl <= blen,
                k <= line_len,
                out.len() == y * rl + k,
                forall|j: int|
                    0 <= j < out.len() ==> #[trigger] out[j] == spec_yflip_at(bytes@, rl, h, j),
            decreases line_len - k,
        {
            let b = bytes[src_start + k];
            proof {
                vstd::arithmetic::div_mod::lemma_fundamental_div_mod_converse(
                    y * rl + k,
                    rl,
                    y as int,
                    k as int,
                );
                assert(rl * y == y as int * rl) by (nonlinear_arith);
            }
            out.push(b);
            k = k + 1;
        }
        y = y + 1;
    }
    *bytes = out;
}

/// Byte `j` of the buffer after each row's pixel order is reversed: the
/// pixel at column `x` holds what column `w - 1 - x` held.
pub open spec fn spec_xflip_at(s: Seq<u8>, bpp: int, w: int, j: int) -> u8 {
    let rl = w * bpp;
    let o = j % rl;
    let p = o / bpp;
    s[(j - o) + (w - 1 - p) * bpp + o % bpp]
}

/// Reverses the pixel order within each row.
pub fn image_x_flip(
    bytes: &mut Vec<u8>,
    image_bytes_pixel: usize,
    image_width: usize,
    image_height: usize,
)
    requires
        1 <= image_bytes_pixel <= 4,
        1 <= image_width,
        image_width * image_bytes_pixel <= 0x4_0000,
        old(bytes)@.len() == image_height * (image_width * image_bytes_pixel),
    ensures
        final(bytes)@.len() == old(bytes)@.len(),
        forall|j: int|
            0 <= j < old(bytes)@.len() ==> #[trigger] final(bytes)[j] == spec_xflip_at(
                old(bytes)@,
                image_bytes_pixel as int,
                image_width as int,
                j,
            ),
{
    let line_len: usize = image_width * image_bytes_pixel;
    let ghost rl = line_len as int;
    let ghost w = image_width as int;
    let ghost h = image_height as int;
    let ghost bpp = image_bytes_pixel as int;
    let blen: usize = bytes.len();
    let mut out: Vec<u8> = Vec::new();
    let mut y: usize = 0;
    while y < image_height
        invariant
            1 <= bpp == image_bytes_pixel <= 4,
            1 <= w == image_width,
            h == image_height,
            rl == line_len == w * bpp,
            1 <= rl <= 0x4_0000,
            blen == bytes@.len(),
            bytes@.len() == h * rl,
            y <= h,
            out.len() == y * rl,
            forall|j: int|
                0 <= j < out.len() ==> #[trigger] out[j] == spec_xflip_at(bytes@, bpp, w, j),
        decreases image_height - y,
    {
        proof {
            assert((y + 1) * rl == y * rl + rl && (y + 1) * rl <= h * rl && y * line_len + rl
                <= blen) by (nonlinear_arith)
                requires
                    0 <= y < h,
                    1 <= rl,
                    rl == line_len,
                    blen == h * rl,
            ;
        }
        let row_start = y * line_len;
        let mut x: usize = 0;
        while x < image_width
            invariant
                1 <= bpp == image_bytes_pixel <= 4,
                1 <= w == image_width,
                rl == line_len == w * bpp,
                blen == bytes@.len(),
                bytes@.len() == h * rl,
                0 <= y < h,
                row_start == y * rl,
                row_start + rl <= blen,
                x <= w,
                out.len() == y * rl + x * bpp,
                forall|j: int|
                    0 <= j < out.len() ==> #[trigger] out[j] == spec_xflip_at(bytes@, bpp, w, j),
            decreases image_width - x,
        {
            let flip_x = image_width - 1 - x;
            proof {
                assert((x + 1) * bpp == x * bpp + bpp && (x + 1) * bpp <= w * bpp && flip_x
                    * image_bytes_pixel == (w - 1 - x) * bpp && flip_x * image_bytes_pixel
                    + image_bytes_pixel <= w * bpp) by (nonlinear_arith)
                    requires
                        0 <= x < w,
                        1 <= bpp,
                        bpp == image_bytes_pixel,
                        w == image_width,
                        flip_x == w - 1 - x,
                ;
            }
            let src = row_start + flip_x * image_bytes_pixel;
            let mut c: usize = 0;
            while c < image_bytes_pixel
                invariant
                    1 <= bpp == image_bytes_pixel <= 4,
                    1 <= w == image_width,
                    rl == line_len == w * bpp,
                    blen == bytes@.len(),
                    bytes@.len() == h * rl,
                    0 <= y < h,
                    0 <= x < w,
                    row_start == y * rl,
                    row_start + rl <= blen,
                    x * bpp + bpp <= rl,
                    (w - 1 - x) * bpp + bpp <= rl,
                    src == row_start + (w - 1 - x) * bpp,
                    c <= image_bytes_pixel,
                    out.len() == y * rl + x * bpp + c,
                    forall|j: int|
                        0 <= j < out.len() ==> #[trigger] out[j] == spec_xflip_at(bytes@, bpp, w, j),
                decreases image_bytes_pixel - c,
            {
                let b = bytes[src + c];
                proof {
                    let j = y * rl + x * bpp + c;
                    vstd::arithmetic::div_mod::lemma_fundamental_div_mod_converse(
                        j,
                        rl,
                        y as int,
                        x * bpp + c,
                    );
                    assert(rl * y == y as int * rl) by (nonlinear_arith);
                    vstd::arithmetic::div_mod::lemma_fundamental_div_mod_converse(
                        x * bpp + c,
                        bpp,
                        x as int,
                        c as int,
                    );
                    assert(bpp * x == x as int * bpp) by (nonlinear_arith);
                    assert(spec_xflip_at(bytes@, bpp, w, j) == bytes@[src + c]);
                }
                out.push(b);
                c = c + 1;
            }
            x = x + 1;
        }
        y = y + 1;
    }
    *bytes = out;
}

/// A decoded image: dimensions, pixel format, logical channel count and the
/// raw bytes.
#[derive(Debug, Clone)]
pub struct TgaImage {
    pub width: usize,
    pub height: usize,
    pub format: u8,
    pub color_type: u8,
    pub data: Vec<u8>,
}

/// Bytes per pixel for a supported bit depth.
pub open spec fn spec_tga_bpp(bits: u8) -> int {
    bits as int / 8
}

/// Whether a stream can be decoded: a full header, a true-color image
/// type, a supported bit depth, nonzero dimensions whose pixel area is
/// addressable, and enough pixel data.
pub open spec fn spec_tga_decodable(bytes: Seq<u8>) -> bool {
    &&& bytes.len() >= 18
    &&& (bytes[2] == TGA_IMAGE_TYPE_RGB || bytes[2] == TGA_IMAGE_TYPE_RGB_RLE)
    &&& (bytes[16] == 8 || bytes[16] == 16 || bytes[16] == 24 || bytes[16] == 32)
    &&& 1 <= spec_u16_le(bytes[12], bytes[13])
    &&& 1 <= spec_u16_le(bytes[14], bytes[15])
    &&& spec_u16_le(bytes[12], bytes[13]) * spec_u16_le(bytes[14], bytes[15]) * spec_tga_bpp(
        bytes[16],
    ) <= usize::MAX
    &&& {
        let w = spec_u16_le(bytes[12], bytes[13]);
        let h = spec_u16_le(bytes[14], bytes[15]);
        let need = w * h * spec_tga_bpp(bytes[16]);
        if bytes[2] == TGA_IMAGE_TYPE_RGB_RLE {
            spec_rle(bytes.skip(18), spec_tga_bpp(bytes[16]) as nat, need as nat) is Some
        } else {
            bytes.len() - 18 >= need
        }
    }
}

/// The pixel payload of a decodable stream: the RLE expansion, or the raw
/// bytes after the header, cut to the pixel area.
pub open spec fn spec_tga_payload(bytes: Seq<u8>) -> Seq<u8> {
    let w = spec_u16_le(bytes[12], bytes[13]);
    let h = spec_u16_le(bytes[14], bytes[15]);
    let bpp = spec_tga_bpp(bytes[16]);
    if bytes[2] == TGA_IMAGE_TYPE_RGB_RLE {
        spec_rle(bytes.skip(18), bpp as nat, (w * h * bpp) as nat)->Some_0
    } else {
        bytes.skip(18).take(w * h * bpp)
    }
}

/// The payload after the red/blue channel fix-up for its bit depth.
pub open spec fn spec_swap_stage(payload: Seq<u8>, bits: u8, npix: int) -> Seq<u8> {
    if bits == 16 {
        Seq::new(payload.len(), |j: int| spec_swap16_at(payload, npix, j))
    } else if bits == 24 || bits == 32 {
        Seq::new(payload.len(), |j: int| spec_swap_rb_at(payload, bits as int / 8, npix, j))
    } else {
        payload
    }
}

/// The pixels after the orientation flips the descriptor asks for.
pub open spec fn spec_flip_stage(s: Seq<u8>, bits: u8, w: int, h: int, descriptor: u8) -> Seq<u8> {
    let bpp = bits as int / 8;
    let rl = w * bpp;
    let after_y = if descriptor & VERTICAL_FLIP_MASK != 0 {
        Seq::new(s.len(), |j: int| spec_yflip_at(s, rl, h, j))
    } else {
        s
    };
    if descriptor & HORIZONTAL_FLIP_MASK != 0 {
        Seq::new(after_y.len(), |j: int| spec_xflip_at(after_y, bpp, w, j))
    } else {
        after_y
    }
}

/// What a decodable stream decodes to: its payload, channel-fixed and
/// flipped.
pub open spec fn spec_tga_decoded(bytes: Seq<u8>) -> Seq<u8> {
    let w = spec_u16_le(bytes[12], bytes[13]);
    let h = spec_u16_le(bytes[14], bytes[15]);
    spec_flip_stage(
        spec_swap_stage(spec_tga_payload(bytes), bytes[16], w * h),
        bytes[16],
        w,
        h,
        bytes[17],
    )
}

/// Decodes a complete image stream: header, pixel payload (raw or RLE),
/// channel order fix-up, and the orientation flips the header asks for.
pub fn decode_tga(in_tga: &[u8]) -> (r: Option<TgaImage>)
    ensures
        r is Some <==> spec_tga_decodable(in_tga@),
        match r {
            Some(img) => {
                &&& img.width == spec_u16_le(in_tga[12], in_tga[13])
                &&& img.height == spec_u16_le(in_tga[14], in_tga[15])
                &&& (in_tga[16] == 8 ==> img.format == TGA_FORMAT_R8 && img.color_type == 1)
                &&& (in_tga[16] == 16 ==> img.format == TGA_FORMAT_RGB5A1 && img.color_type == 4)
                &&& (in_tga[16] == 24 ==> img.format == TGA_FORMAT_RGB8 && img.color_type == 3)
                &&& (in_tga[16] == 32 ==> img.format == TGA_FORMAT_RGBA8 && img.color_type == 4)
                &&& img.data.len() == img.width * img.height * spec_tga_bpp(in_tga[16])
                &&& img.data@ == spec_tga_decoded(in_tga@)
            },
            None => true,
        },
{
    let header = match parse_tga_header(in_tga) {
        Some(h) => h,
        None => {
            return None;
        },
    };
    if header.imagetype != TGA_IMAGE_TYPE_RGB && header.imagetype != TGA_IMAGE_TYPE_RGB_RLE {
        return None;
    }
    let (image_format, image_type): (u8, u8) = match header.bits {
        8 => (TGA_FORMAT_R8, 1),
        16 => (TGA_FORMAT_RGB5A1, 4),
        24 => (TGA_FORMAT_RGB8, 3),
        32 => (TGA_FORMAT_RGBA8, 4),
        _ => {
            return None;
        },
    };
    let image_width = header.width as usize;
    let image_height = header.height as usize;
    if image_width == 0 || image_height == 0 {
        return None;
    }
    let bpp: usize = (header.bits as usize) / 8;
    // the pixel area must be addressable before any buffer is sized
    proof {
        crate::math::lemma_mul_abs_bound(
            (image_width as u64) as int,
            (image_height as u64) as int,
            0xFFFF,
            0xFFFF,
        );
        crate::math::lemma_mul_abs_bound(
            ((image_width as u64) * (image_height as u64)) as int,
            (bpp as u64) as int,
            0xFFFE_0001,
            4,
        );
        crate::math::lemma_mul_congruence(
            (image_width as u64) as int,
            (image_height as u64) as int,
            image_width as int,
            image_height as int,
        );
        crate::math::lemma_mul_congruence(
            ((image_width as u64) * (image_height as u64)) as int,
            (bpp as u64) as int,
            (image_width * image_height) as int,
            bpp as int,
        );
    }
    let need64: u64 = (image_width as u64) * (image_height as u64) * (bpp as u64);
    if need64 > usize::MAX as u64 {
        return None;
    }
    let need: usize = need64 as usize;
    proof {
        crate::math::lemma_mul_abs_bound(image_width as int, image_height as int, 0xFFFF, 0xFFFF);
        crate::math::lemma_mul_abs_bound(
            (image_width * image_height) as int,
            bpp as int,
            0xFFFE_0001,
            4,
        );
        assert(need == image_width * image_height * bpp);
    }
    let data = vstd::slice::slice_subrange(in_tga, 18, in_tga.len());
    proof {
        assert(data@ =~= in_tga@.skip(18));
    }
    let mut out_image: Vec<u8>;
    if header.imagetype == TGA_IMAGE_TYPE_RGB_RLE {
        out_image = match decoder_rle(image_width, image_height, bpp, data) {
            Some(v) => v,
            None => {
                return None;
            },
        };
        proof {
            lemma_rle_some_len(data@, bpp as nat, need as nat);
        }
    } else {
        if data.len() < need {
            return None;
        }
        let mut copied: Vec<u8> = Vec::new();
        let mut j: usize = 0;
        while j < need
            invariant
                need <= data@.len(),
                j <= need,
                copied@ == data@.subrange(0, j as int),
            decreases need - j,
        {
            copied.push(data[j]);
            proof {
                assert(data@.subrange(0, (j + 1) as int) =~= data@.subrange(0, j as int).push(
                    data@[j as int],
                ));
            }
            j = j + 1;
        }
        out_image = copied;
        proof {
            assert(out_image@ =~= in_tga@.skip(18).take(need as int));
        }
    }
    proof {
        assert(out_image@ == spec_tga_payload(in_tga@));
    }
    let ghost payload = out_image@;
    let ghost npix: int = (image_width * image_height) as int;
    match header.bits {
        16 => {
            proof {
                assert(2 * (image_width * image_height) == image_width * image_height * bpp)
                    by (nonlinear_arith)
                    requires
                        bpp == 2,
                ;
            }
            rga_swap_r_and_b_16(&mut out_image, image_width, image_height);
        },
        24 | 32 => {
            rga_swap_r_and_b_24_32(&mut out_image, bpp, image_width, image_height);
        },
        _ => {},
    }
    proof {
        assert(out_image@ =~= spec_swap_stage(payload, header.bits, npix));
    }
    let ghost swapped = out_image@;
    proof {
        crate::math::lemma_mul_abs_bound(image_width as int, bpp as int, 0xFFFF, 4);
        assert(image_width * image_height * bpp == image_height * (image_width * bpp) && 1
            <= image_width * bpp) by (nonlinear_arith)
            requires
                1 <= image_width,
                1 <= bpp,
        ;
    }
    if vertical_flip(&header) {
        image_y_flip(&mut out_image, bpp, image_width, image_height);
        proof {
            assert(out_image@ =~= Seq::new(
                swapped.len(),
                |j: int| spec_yflip_at(swapped, image_width as int * bpp, image_height as int, j),
            ));
        }
    }
    let ghost yflipped = out_image@;
    if horizontal_flip(&header) {
        image_x_flip(&mut out_image, bpp, image_width, image_height);
        proof {
            assert(out_image@ =~= Seq::new(
                yflipped.len(),
                |j: int| spec_xflip_at(yflipped, bpp as int, image_width as int, j),
            ));
        }
    }
    proof {
        assert(out_image@ == spec_tga_decoded(in_tga@));
    }
    Some(
        TgaImage {
            width: image_width,
            height: image_height,
            format: image_format,
            color_type: image_type,
            data: out_image,
        },
    )
}

/// A successful RLE decode yields exactly the requested number of bytes.
pub proof fn lemma_rle_some_len(inp: Seq<u8>, bpp: nat, need: nat)
    requires
        spec_rle(inp, bpp, need) is Some,
    ensures
        spec_rle(inp, bpp, need)->Some_0.len() == need,
    decreases inp.len(),
{
    if need == 0 {
    } else if inp.len() == 0 {
    } else {
        let header = inp[0];
        if header >= 0x80 {
            let n = (header - 127) as nat;
            let pixel = inp.subrange(1, 1 + bpp as int);
            lemma_rle_some_len(inp.skip(1 + bpp as int), bpp, (need - n * bpp) as nat);
            lemma_seq_repeat_len(pixel, n);
        } else {
            let n = (header + 1) as nat;
            lemma_rle_some_len(inp.skip(1 + (n * bpp) as int), bpp, (need - n * bpp) as nat);
        }
    }
}

} // verus!
