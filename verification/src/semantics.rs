//! The decode-time semantics of the emitted lookup logic, and the proof that
//! every non-Geekest configuration reconstructs the original pixels.

use vstd::prelude::*;

use vstd::arithmetic::div_mod::{lemma_fundamental_div_mod, lemma_fundamental_div_mod_converse};
use vstd::arithmetic::power2::pow2;

use crate::config::{DisplayConfig, InlineLevel};
use crate::pack::{
    lemma_pack_unpack, ordered_buffer, packed_words, rows_reversed, unpacked_index,
    valid_bits,
};
use crate::pixel_art::{
    bit_width, lemma_bit_width_covers, spec_compressible, PixelArt,
};

verus! {

/// The color that the emitted lookup logic produces at shader coordinate
/// `(x, yup)`, where `yup` counts rows bottom-up as the shader entry point
/// does. This mirrors the emitted arithmetic exactly: the flat position is
/// `yup * width + x` when the rows were reversed at pack time, and
/// `(height - 1 - yup) * width + x` when the shader itself flips the y axis;
/// packed words are then indexed, shifted and masked by the formula the
/// chunk-order policy dictates, or indexed directly on the raw path.
pub open spec fn shader_color(art: PixelArt, cfg: DisplayConfig, x: int, yup: int) -> u32
    recommends
        art.wf(),
        0 <= x < art.width as int,
        0 <= yup < art.height as int,
        !(cfg.inline_level is Geekest),
{
    let w = art.width as int;
    let h = art.height as int;
    let bits = bit_width(art.palette@.len());
    let rr = cfg.buffer_format.reverse_rows;
    let rev = cfg.buffer_format.reverse_each_chunk;
    let ordered = ordered_buffer(art.buffer@, art.width as nat, art.height as nat, rr);
    let idx = if rr {
        yup * w + x
    } else {
        (h - 1 - yup) * w + x
    };
    if spec_compressible(art.palette@.len(), cfg.buffer_format.force_to_raw) {
        let words = packed_words(ordered, bits, rev);
        art.palette@[unpacked_index(words, bits, rev, idx) as int]
    } else {
        art.palette@[ordered[idx] as int]
    }
}

/// The flat position selected by the emitted coordinate arithmetic is in
/// range and addresses the original pixel `(x, height - 1 - yup)`.
proof fn lemma_ordered_entry(art: PixelArt, rr: bool, x: int, yup: int)
    requires
        art.wf(),
        0 <= x < art.width as int,
        0 <= yup < art.height as int,
    ensures
        ({
            let w = art.width as int;
            let h = art.height as int;
            let idx = if rr {
                yup * w + x
            } else {
                (h - 1 - yup) * w + x
            };
            let ordered = ordered_buffer(art.buffer@, art.width as nat, art.height as nat, rr);
            &&& 0 <= idx < art.buffer@.len()
            &&& ordered.len() == art.buffer@.len()
            &&& ordered[idx] == art.buffer@[(h - 1 - yup) * w + x]
            &&& 0 <= (h - 1 - yup) * w + x < art.buffer@.len()
        }),
{
    let w = art.width as int;
    let h = art.height as int;
    let len = art.buffer@.len() as int;
    assert(forall|y: int|
        0 <= y < h ==> #[trigger] (y * w) >= 0 && y * w + w <= len) by (nonlinear_arith)
        requires
            len == w * h,
            w >= 1,
            h >= 1,
    ;
    assert(yup * w + w <= len);
    assert((h - 1 - yup) * w + w <= len);
    if rr {
        let idx = yup * w + x;
        lemma_fundamental_div_mod_converse(idx, w, yup, x);
        assert(rows_reversed(art.buffer@, art.width as nat, art.height as nat)[idx]
            == art.buffer@[(h - 1 - yup) * w + x]);
    }
}

/// Evaluating the emitted lookup logic at every shader coordinate yields the
/// color the original pixel art holds there: the shift/mask extraction is
/// the exact inverse of the packing fold, whatever the row-order and
/// chunk-order policies, and the raw path indexes the pixel directly.
pub proof fn lemma_shader_reconstructs(art: PixelArt, cfg: DisplayConfig, x: int, yup: int)
    requires
        art.wf(),
        0 <= x < art.width as int,
        0 <= yup < art.height as int,
        !(cfg.inline_level is Geekest),
    ensures
        shader_color(art, cfg, x, yup) == art.palette@[art.buffer@[(art.height as int - 1 - yup)
            * (art.width as int) + x] as int],
{
    let w = art.width as int;
    let h = art.height as int;
    let rr = cfg.buffer_format.reverse_rows;
    let rev = cfg.buffer_format.reverse_each_chunk;
    let bits = bit_width(art.palette@.len());
    let ordered = ordered_buffer(art.buffer@, art.width as nat, art.height as nat, rr);
    let idx = if rr {
        yup * w + x
    } else {
        (h - 1 - yup) * w + x
    };
    lemma_ordered_entry(art, rr, x, yup);
    if spec_compressible(art.palette@.len(), cfg.buffer_format.force_to_raw) {
        assert(valid_bits(bits));
        lemma_bit_width_covers(art.palette@.len());
        assert(forall|t: int| 0 <= t < ordered.len() ==> (ordered[t] as nat) < pow2(bits)) by {
            if rr {
                assert forall|t: int| 0 <= t < ordered.len() implies (ordered[t] as nat) < pow2(
                    bits,
                ) by {
                    lemma_rows_reversed_entry_bound(art, t);
                }
            }
        }
        lemma_pack_unpack(ordered, bits, rev, idx);
    }
}

/// Every entry of the row-reversed buffer is an entry of the buffer, so it
/// is bounded by the palette length like any other index.
proof fn lemma_rows_reversed_entry_bound(art: PixelArt, t: int)
    requires
        art.wf(),
        0 <= t < art.buffer@.len(),
    ensures
        (rows_reversed(art.buffer@, art.width as nat, art.height as nat)[t] as nat)
            < art.palette@.len(),
{
    let w = art.width as int;
    let h = art.height as int;
    let len = art.buffer@.len() as int;
    let y = t / w;
    let c = t % w;
    vstd::arithmetic::div_mod::lemma_mod_bound(t, w);
    lemma_fundamental_div_mod(t, w);
    assert(0 <= y) by {
        vstd::arithmetic::div_mod::lemma_div_is_ordered(0, t, w);
    }
    assert(y < h) by (nonlinear_arith)
        requires
            t == w * y + c,
            t < len,
            len == w * h,
            0 <= c < w,
            w >= 1,
            y >= 0,
    ;
    assert(0 <= (h - 1 - y) * w + c < len) by (nonlinear_arith)
        requires
            0 <= h - 1 - y < h,
            0 <= c < w,
            len == w * h,
            w >= 1,
    ;
}

/// Every entry of the emission-ordered buffer fits in the planned bit
/// width, so the packing fold never overflows a word.
pub proof fn lemma_ordered_elements_bound(art: PixelArt, rr: bool)
    requires
        art.wf(),
        crate::pixel_art::spec_palette_compressible(art.palette@.len()),
    ensures
        forall|t: int|
            0 <= t < ordered_buffer(art.buffer@, art.width as nat, art.height as nat, rr).len()
                ==> (ordered_buffer(art.buffer@, art.width as nat, art.height as nat, rr)[t]
                as nat) < pow2(bit_width(art.palette@.len())),
{
    let ordered = ordered_buffer(art.buffer@, art.width as nat, art.height as nat, rr);
    lemma_bit_width_covers(art.palette@.len());
    assert forall|t: int| 0 <= t < ordered.len() implies (ordered[t] as nat) < pow2(
        bit_width(art.palette@.len()),
    ) by {
        if rr {
            lemma_rows_reversed_entry_bound(art, t);
        }
    }
}

/// Configuration-space equivalence: any two non-Geekest configurations --
/// whatever their formatting verbosity, palette format, row order or chunk
/// order -- decode to the same color at every shader coordinate, namely the
/// original pixel's color. The textual form varies; the decoded semantics
/// never do.
pub proof fn lemma_config_equivalence(
    art: PixelArt,
    cfg1: DisplayConfig,
    cfg2: DisplayConfig,
    x: int,
    yup: int,
)
    requires
        art.wf(),
        0 <= x < art.width as int,
        0 <= yup < art.height as int,
        !(cfg1.inline_level is Geekest),
        !(cfg2.inline_level is Geekest),
    ensures
        shader_color(art, cfg1, x, yup) == shader_color(art, cfg2, x, yup),
{
    lemma_shader_reconstructs(art, cfg1, x, yup);
    lemma_shader_reconstructs(art, cfg2, x, yup);
}

} // verus!
