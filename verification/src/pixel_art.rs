//! The pixel art value: a deduplicated palette in first-occurrence order and
//! a per-pixel index buffer, decoded from a raster image.

use vstd::prelude::*;

use vstd::arithmetic::power2::{lemma2_to64, pow2};
use vstd::seq_lib::*;
use vstd::set_lib::{lemma_int_range, lemma_len_subset, set_int_range};

use crate::config::Error;

verus! {

/// The 24-bit color of pixel `p` in a flat RGBA byte buffer: the alpha byte
/// is dropped and R, G, B are packed into the low 24 bits.
pub open spec fn color_at(raw: Seq<u8>, p: int) -> u32
    recommends
        0 <= p,
        4 * p + 3 < raw.len(),
{
    (65536 * (raw[4 * p] as nat) + 256 * (raw[4 * p + 1] as nat) + (raw[4 * p + 2] as nat)) as u32
}

/// The palette after scanning the first `n` pixels: each color is appended
/// the first time it is seen, so the order is first-occurrence order.
pub open spec fn palette_upto(raw: Seq<u8>, n: nat) -> Seq<u32>
    decreases n,
{
    if n == 0 {
        Seq::empty()
    } else {
        let prev = palette_upto(raw, (n - 1) as nat);
        let c = color_at(raw, n - 1);
        if prev.contains(c) {
            prev
        } else {
            prev.push(c)
        }
    }
}

/// A sequence of pairwise-distinct values drawn from `0..bound` cannot be
/// longer than `bound`.
proof fn lemma_unique_bounded_len(s: Seq<u32>, bound: nat)
    requires
        forall|i: int, j: int| 0 <= i < j < s.len() ==> s[i] != s[j],
        forall|i: int| 0 <= i < s.len() ==> (s[i] as nat) < bound,
    ensures
        s.len() <= bound,
{
    broadcast use vstd::set::group_set_axioms, seq_to_set_is_finite;

    let t = s.map_values(|c: u32| c as int);
    assert(t.no_duplicates()) by {
        assert forall|i: int, j: int| 0 <= i < t.len() && 0 <= j < t.len() && i != j implies t[i]
            != t[j] by {
            if i < j {
                assert(s[i] != s[j]);
            } else {
                assert(s[j] != s[i]);
            }
        }
    }
    t.unique_seq_to_set();
    let range = set_int_range(0, bound as int);
    lemma_int_range(0, bound as int);
    assert(t.to_set().subset_of(range)) by {
        assert forall|x: int| t.to_set().contains(x) implies range.contains(x) by {
            let i = choose|i: int| 0 <= i < t.len() && t[i] == x;
            assert(0 <= t[i] < bound);
        }
    }
    lemma_len_subset(t.to_set(), range);
}

/// The minimal power-of-two bit-width that can address `max(len - 1, 1)`
/// values: the number of bits needed, rounded up to the next power of two,
/// so that `32 / bits` is always an exact chunk size.
pub open spec fn bit_width(len: nat) -> nat {
    if len <= 2 {
        1
    } else if len <= 4 {
        2
    } else if len <= 16 {
        4
    } else if len <= 256 {
        8
    } else if len <= 65536 {
        16
    } else {
        32
    }
}

/// Every palette index (a value below `len`) fits in `bit_width(len)` bits,
/// as long as packing applies at all (`len <= 65536`).
pub proof fn lemma_bit_width_covers(len: nat)
    requires
        len <= 65536,
    ensures
        len <= pow2(bit_width(len)),
{
    lemma2_to64();
}

/// The bit width is a power of two dividing 32; the chunk size `32 / bits`
/// is exact.
pub proof fn lemma_bit_width_divides(len: nat)
    ensures
        bit_width(len) * (32nat / bit_width(len)) == 32,
        1 <= bit_width(len) <= 32,
{
}

/// Whether the palette is small enough for its indices to be bit-packed.
pub open spec fn spec_palette_compressible(len: nat) -> bool {
    len < 0x10000
}

/// Whether a render actually packs: the palette is small enough and the
/// configuration does not force the raw path.
pub open spec fn spec_compressible(len: nat, force_to_raw: bool) -> bool {
    !force_to_raw && spec_palette_compressible(len)
}

/// pixel art handler
#[derive(Clone, Debug)]
pub struct PixelArt {
    /// The distinct colors present, in first-occurrence order.
    pub palette: Vec<u32>,
    /// One palette index per pixel, row-major, top-to-bottom.
    pub buffer: Vec<u32>,
    /// Image width in pixels.
    pub width: u32,
    /// Image height in pixels.
    pub height: u32,
}

impl PixelArt {
    /// Well-formedness: the buffer covers the image exactly, every entry
    /// addresses a palette slot, and the palette holds distinct 24-bit
    /// colors, at least one.
    pub open spec fn wf(self) -> bool {
        &&& self.width >= 1
        &&& self.height >= 1
        &&& self.buffer@.len() == (self.width as nat) * (self.height as nat)
        &&& self.palette@.len() >= 1
        &&& forall|i: int|
            0 <= i < self.buffer@.len() ==> (self.buffer@[i] as nat) < self.palette@.len()
        &&& forall|i: int| 0 <= i < self.palette@.len() ==> (self.palette@[i] as nat) < 0x1000000
        &&& forall|i: int, j: int|
            0 <= i < j < self.palette@.len() ==> self.palette@[i] != self.palette@[j]
    }

    pub fn palette(&self) -> (r: &Vec<u32>)
        ensures
            r@ == self.palette@,
    {
        &self.palette
    }

    pub fn buffer(&self) -> (r: &Vec<u32>)
        ensures
            r@ == self.buffer@,
    {
        &self.buffer
    }

    /// necessary bit shift for represent pixel
    pub fn necessary_bit_shift(&self) -> (r: usize)
        ensures
            r == bit_width(self.palette@.len()),
    {
        let len = self.palette.len();
        if len <= 2 {
            1
        } else if len <= 4 {
            2
        } else if len <= 16 {
            4
        } else if len <= 256 {
            8
        } else if len <= 65536 {
            16
        } else {
            32
        }
    }

    pub fn is_compressible(&self) -> (r: bool)
        ensures
            r == spec_palette_compressible(self.palette@.len()),
    {
        self.palette.len() < 0x10000
    }

    /// Builds the pixel art from a flat RGBA byte buffer (4 bytes per pixel,
    /// row-major, top-to-bottom): drops each alpha byte, forms a 24-bit
    /// color, and assigns the next sequential index the first time a color
    /// is seen.
    pub fn from_rgba(width: u32, height: u32, raw: &Vec<u8>) -> (r: PixelArt)
        requires
            width >= 1,
            height >= 1,
            raw@.len() == 4 * (width as nat) * (height as nat),
        ensures
            r.wf(),
            r.width == width,
            r.height == height,
            r.palette@ == palette_upto(raw@, (raw@.len() / 4) as nat),
            r.buffer@.len() == raw@.len() / 4,
            forall|p: int|
                0 <= p < r.buffer@.len() ==> (r.buffer@[p] as nat) < r.palette@.len()
                    && r.palette@[r.buffer@[p] as int] == color_at(raw@, p),
    {
        let n = raw.len() / 4;
        proof {
            let w = width as int;
            let h = height as int;
            assert(w * h >= 1) by (nonlinear_arith)
                requires
                    w >= 1 && h >= 1,
            ;
            assert((4 * w) * h == 4 * (w * h)) by (nonlinear_arith);
            vstd::arithmetic::div_mod::lemma_div_multiples_vanish(w * h, 4);
            assert(n == w * h);
        }
        let mut palette: Vec<u32> = Vec::new();
        let mut buffer: Vec<u32> = Vec::new();
        let mut p: usize = 0;
        while p < n
            invariant
                n == (width as nat) * (height as nat),
                4 * (n as nat) == raw@.len(),
                raw@.len() <= usize::MAX,
                p <= n,
                palette@ == palette_upto(raw@, p as nat),
                buffer@.len() == p,
                forall|q: int| #![trigger buffer@[q]]
                    0 <= q < p ==> (buffer@[q] as nat) < palette@.len() && palette@[buffer@[q] as int]
                        == color_at(raw@, q),
                palette@.len() <= 0x1000000,
                forall|a: int| 0 <= a < palette@.len() ==> (palette@[a] as nat) < 0x1000000,
                forall|a: int, b: int| 0 <= a < b < palette@.len() ==> palette@[a] != palette@[b],
            decreases n - p,
        {
            let base = 4 * p;
            let c: u32 = 65536 * (raw[base] as u32) + 256 * (raw[base + 1] as u32) + (raw[base + 2]
                as u32);
            assert(c == color_at(raw@, p as int));
            let mut i: usize = 0;
            let mut idx: usize = palette.len();
            while i < palette.len()
                invariant
                    i <= palette@.len(),
                    idx <= palette@.len(),
                    idx == palette@.len() ==> forall|t: int| 0 <= t < i ==> palette@[t] != c,
                    idx < palette@.len() ==> palette@[idx as int] == c,
                decreases palette@.len() - i,
            {
                if palette[i] == c {
                    idx = i;
                    i = palette.len();
                } else {
                    i += 1;
                }
            }
            let idx: usize = if idx < palette.len() {
                idx
            } else {
                proof {
                    assert(!palette_upto(raw@, p as nat).contains(c)) by {
                        if palette_upto(raw@, p as nat).contains(c) {
                            let t = choose|t: int|
                                0 <= t < palette@.len() && palette@[t] == c;
                            assert(palette@[t] != c);
                        }
                    }
                    lemma_unique_bounded_len(palette@.push(c), 0x1000000);
                }
                palette.push(c);
                palette.len() - 1
            };
            buffer.push(idx as u32);
            p += 1;
            proof {
                assert(palette@ == palette_upto(raw@, p as nat));
                assert forall|q: int| 0 <= q < p implies (buffer@[q] as nat) < palette@.len()
                    && palette@[buffer@[q] as int] == color_at(raw@, q) by {
                    if q == p - 1 {
                        assert(buffer@[q] == idx as u32);
                        assert(palette@[idx as int] == c);
                    }
                }
            }
        }
        let r = PixelArt { palette, buffer, width, height };
        proof {
            assert(r.buffer@.len() == (width as nat) * (height as nat));
            assert((r.buffer@[0] as nat) < r.palette@.len());
        }
        r
    }

    /// Exchanges two palette entries and rewrites all buffer references to
    /// both indices atomically, preserving well-formedness and the color of
    /// every pixel.
    pub fn swap_palette_index(&mut self, i: u32, j: u32)
        requires
            (i as nat) < old(self).palette@.len(),
            (j as nat) < old(self).palette@.len(),
        ensures
            final(self).width == old(self).width,
            final(self).height == old(self).height,
            final(self).palette@ == old(self).palette@.update(
                i as int,
                old(self).palette@[j as int],
            ).update(j as int, old(self).palette@[i as int]),
            final(self).buffer@.len() == old(self).buffer@.len(),
            forall|p: int|
                0 <= p < old(self).buffer@.len() ==> final(self).buffer@[p] == (
                if old(self).buffer@[p] == i {
                    j
                } else if old(self).buffer@[p] == j {
                    i
                } else {
                    old(self).buffer@[p]
                }),
            old(self).wf() ==> final(self).wf(),
            old(self).wf() ==> forall|p: int|
                0 <= p < old(self).buffer@.len()
                    ==> final(self).palette@[final(self).buffer@[p] as int]
                    == old(self).palette@[old(self).buffer@[p] as int],
    {
        let a = self.palette[i as usize];
        let b = self.palette[j as usize];
        self.palette[i as usize] = b;
        self.palette[j as usize] = a;
        let mut p: usize = 0;
        let len = self.buffer.len();
        while p < len
            invariant
                len == self.buffer@.len(),
                p <= len,
                self.palette@ == old(self).palette@.update(
                    i as int,
                    old(self).palette@[j as int],
                ).update(j as int, old(self).palette@[i as int]),
                self.width == old(self).width,
                self.height == old(self).height,
                self.buffer@.len() == old(self).buffer@.len(),
                forall|q: int|
                    p <= q < len ==> self.buffer@[q] == old(self).buffer@[q],
                forall|q: int|
                    0 <= q < p ==> self.buffer@[q] == (if old(self).buffer@[q] == i {
                        j
                    } else if old(self).buffer@[q] == j {
                        i
                    } else {
                        old(self).buffer@[q]
                    }),
            decreases len - p,
        {
            let v = self.buffer[p];
            if v == i {
                self.buffer[p] = j;
            } else if v == j {
                self.buffer[p] = i;
            }
            p += 1;
        }
    }
}

/// Which raster container the outside decoder recognized in the bytes.
#[derive(Clone, Copy, Debug, PartialEq, Eq, Structural)]
pub enum ImageContainer {
    Png,
    Bmp,
    Gif,
    /// A recognized container that this library does not accept.
    Other,
}

/// The container that `image::guess_format` detects in the bytes, or `None`
/// when it detects nothing; the guess reads magic bytes only, so it is a
/// function of the bytes alone.
pub uninterp spec fn guessed_container(bytes: Seq<u8>) -> Option<ImageContainer>;

/// The pixel width that the built-in decoder for the container guessed from
/// these same bytes reports.
pub uninterp spec fn decoded_width(bytes: Seq<u8>) -> u32;

/// The pixel height that the built-in decoder for the container guessed
/// from these same bytes reports.
pub uninterp spec fn decoded_height(bytes: Seq<u8>) -> u32;

/// The flat RGBA8 pixel bytes (4 per pixel, row-major, top-to-bottom) that
/// the built-in decoder for the container guessed from these same bytes
/// produces.
pub uninterp spec fn decoded_rgba(bytes: Seq<u8>) -> Seq<u8>;

/// Whether the built-in decoder for the container guessed from these same
/// bytes succeeds. Like the decoded values this is a function of the bytes
/// alone: the format is pinned to the one `image::guess_format` reads off
/// the magic bytes, and decoding a pinned built-in format consults no
/// runtime-registered hooks, runs with its fixed default limits, and reads
/// nothing but its input.
pub uninterp spec fn decode_ok(bytes: Seq<u8>) -> bool;

/// Relies on image::guess_format: detects the container format from the
/// leading magic bytes by a static signature table, deterministically in
/// the bytes; errs when no known signature matches.
#[verifier::external_body]
fn guess_container(buffer: &[u8]) -> (r: Result<ImageContainer, String>)
    ensures
        r is Ok <==> guessed_container(buffer@) is Some,
        r matches Ok(c) ==> guessed_container(buffer@) == Some(c),
{
    match image::guess_format(buffer) {
        Ok(image::ImageFormat::Png) => Ok(ImageContainer::Png),
        Ok(image::ImageFormat::Bmp) => Ok(ImageContainer::Bmp),
        Ok(image::ImageFormat::Gif) => Ok(ImageContainer::Gif),
        Ok(_) => Ok(ImageContainer::Other),
        Err(e) => Err(e.to_string()),
    }
}

/// Relies on image::load_from_memory_with_format, DynamicImage::width /
/// height / into_rgba8 and ImageBuffer::into_raw: decodes the container
/// into a flat RGBA8 buffer of exactly width * height * 4 bytes; errs when
/// the bytes are malformed or truncated or an allocation limit is hit.
/// Because the format passed in must be the one guessed from these same
/// bytes, decoding stays on the built-in decoder path, which consults no
/// runtime-registered hook and is deterministic in the bytes.
#[verifier::external_body]
fn load_rgba(buffer: &[u8], container: ImageContainer) -> (r: Result<(u32, u32, Vec<u8>), String>)
    requires
        guessed_container(buffer@) == Some(container),
        !(container is Other),
    ensures
        r is Ok <==> decode_ok(buffer@),
        r matches Ok(t) ==> {
            &&& t.0 == decoded_width(buffer@)
            &&& t.1 == decoded_height(buffer@)
            &&& t.2@ == decoded_rgba(buffer@)
            &&& t.2@.len() == 4 * (t.0 as nat) * (t.1 as nat)
        },
{
    let format = match container {
        ImageContainer::Png => image::ImageFormat::Png,
        ImageContainer::Bmp => image::ImageFormat::Bmp,
        ImageContainer::Gif => image::ImageFormat::Gif,
        // Excluded by the precondition.
        ImageContainer::Other => return Err("unsupported container".to_owned()),
    };
    match image::load_from_memory_with_format(buffer, format) {
        Ok(v) => {
            let w = v.width();
            let h = v.height();
            Ok((w, h, v.into_rgba8().into_raw()))
        },
        Err(e) => Err(e.to_string()),
    }
}

/// Exactly when decoding owes a pixel art: the container is recognized as
/// one this library accepts, the outside decoder succeeds on the bytes, and
/// the decoded image has at least one pixel in each dimension.
pub open spec fn decode_succeeds(bytes: Seq<u8>) -> bool {
    &&& (guessed_container(bytes) matches Some(c) && !(c is Other))
    &&& decode_ok(bytes)
    &&& decoded_width(bytes) >= 1
    &&& decoded_height(bytes) >= 1
}

/// What a successful decode of `bytes` must look like: the unique pixel art
/// whose palette lists the decoded colors in first-occurrence order and
/// whose buffer indexes them pixel by pixel.
pub open spec fn decodes_to(bytes: Seq<u8>, art: PixelArt) -> bool {
    let w = decoded_width(bytes);
    let h = decoded_height(bytes);
    let raw = decoded_rgba(bytes);
    &&& w >= 1
    &&& h >= 1
    &&& art.width == w
    &&& art.height == h
    &&& raw.len() == 4 * (w as nat) * (h as nat)
    &&& art.palette@ == palette_upto(raw, (raw.len() / 4) as nat)
    &&& art.buffer@.len() == raw.len() / 4
    &&& forall|p: int|
        0 <= p < art.buffer@.len() ==> (art.buffer@[p] as nat) < art.palette@.len()
            && art.palette@[art.buffer@[p] as int] == color_at(raw, p)
    &&& art.wf()
}

/// Decoding is deterministic: any two pixel arts decoded from the same image
/// bytes have the same palette (in the same order), the same buffer and the
/// same size.
pub proof fn lemma_decode_deterministic(bytes: Seq<u8>, a: PixelArt, b: PixelArt)
    requires
        decodes_to(bytes, a),
        decodes_to(bytes, b),
    ensures
        a.palette@ == b.palette@,
        a.buffer@ == b.buffer@,
        a.width == b.width,
        a.height == b.height,
{
    let raw = decoded_rgba(bytes);
    assert(a.buffer@ =~= b.buffer@) by {
        assert forall|p: int| 0 <= p < a.buffer@.len() implies a.buffer@[p] == b.buffer@[p] by {
            assert(a.palette@[a.buffer@[p] as int] == color_at(raw, p));
            assert(b.palette@[b.buffer@[p] as int] == color_at(raw, p));
            let x = a.buffer@[p] as int;
            let y = b.buffer@[p] as int;
            assert(a.palette@[x] == b.palette@[y]);
            if x < y {
                assert(a.palette@[x] != a.palette@[y]);
            } else if y < x {
                assert(a.palette@[y] != a.palette@[x]);
            }
        }
    }
}

impl PixelArt {
    /// Creates the pixel art from an image file held in memory. Accepts the
    /// PNG, BMP and GIF containers; delegates the byte parsing to the
    /// outside decoder and deduplicates the decoded pixels itself. An image
    /// that decodes to zero width or height is reported as a decode error,
    /// so that every pixel art handed out is well-formed and renderable.
    pub fn from_image(image_buffer: &[u8]) -> (r: Result<PixelArt, Error>)
        ensures
            r is Ok <==> decode_succeeds(image_buffer@),
            r matches Ok(art) ==> decodes_to(image_buffer@, art),
            (r matches Err(e) && e is UnsupportedImageFormat) <==> guessed_container(
                image_buffer@,
            ) == Some(ImageContainer::Other),
            (r matches Err(e) && e is ImageError) <==> (!decode_succeeds(image_buffer@)
                && guessed_container(image_buffer@) != Some(ImageContainer::Other)),
            r matches Err(e) ==> !(e is PaletteLengthOver16),
    {
        let container = match guess_container(image_buffer) {
            Ok(c) => c,
            Err(m) => {
                return Err(Error::ImageError(m));
            },
        };
        if matches!(container, ImageContainer::Other) {
            return Err(Error::UnsupportedImageFormat);
        }
        match load_rgba(image_buffer, container) {
            Ok((w, h, raw)) => {
                if w == 0 || h == 0 {
                    return Err(
                        Error::ImageError("The image has zero width or height.".to_owned()),
                    );
                }
                Ok(PixelArt::from_rgba(w, h, &raw))
            },
            Err(m) => Err(Error::ImageError(m)),
        }
    }
}

} // verus!
