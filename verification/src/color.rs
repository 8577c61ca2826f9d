//! Rendering of one palette color as a GLSL literal, under a palette format
//! and a spacing mode.

use vstd::prelude::*;

use crate::config::PaletteFormat;
use crate::text::{
    dec_str, dec_u32, float3_compact, float3_compact_text, float3_spaced, float3_spaced_text,
    hex_str, hex_u32,
};

verus! {

/// The red channel of a color packed as `0xRRGGBB` in the low 24 bits.
pub open spec fn red_of(color: nat) -> nat {
    (color / 0x10000) % 0x100
}

/// The green channel of a packed color.
pub open spec fn green_of(color: nat) -> nat {
    (color / 0x100) % 0x100
}

/// The blue channel of a packed color.
pub open spec fn blue_of(color: nat) -> nat {
    color % 0x100
}

/// A channel value in 0..=255 scaled to thousandths of full intensity and
/// rounded to the nearest integer: `round(c / 255 * 1000)`.
pub open spec fn round_channel(c: nat) -> nat {
    (2000 * c + 255) / 510
}

proof fn lemma_round_channel_bound(c: nat)
    requires
        c < 0x100,
    ensures
        round_channel(c) <= 1000,
{
}

/// A single integer literal of the decimal channel value, e.g. `176`.
pub open spec fn dec_channel_str(c: nat) -> Seq<char> {
    dec_str(c)
}

/// A single integer literal of the hexadecimal channel value, e.g. `0xb0`.
pub open spec fn hex_channel_str(c: nat) -> Seq<char> {
    "0x"@ + hex_str(c)
}

/// The text of one palette color under `format`. `space` is the delimiter
/// inserted after separators: a single space in spaced output, empty in
/// compact output. Compact output also drops the trailing `0` of `255.0`
/// and uses the compact fixed-point form for float channels.
pub open spec fn color_str(format: PaletteFormat, space: Seq<char>, color: nat) -> Seq<char> {
    let zero: Seq<char> = if space.len() == 0 {
        Seq::empty()
    } else {
        "0"@
    };
    match format {
        PaletteFormat::IntegerDecimal => dec_str(color),
        PaletteFormat::IntegerHexadecimal => "0x"@ + hex_str(color),
        PaletteFormat::RGBDecimal => "vec3("@ + dec_channel_str(red_of(color)) + ","@ + space
            + dec_channel_str(green_of(color)) + ","@ + space + dec_channel_str(blue_of(color))
            + ")"@ + space + "/"@ + space + "255."@ + zero,
        PaletteFormat::RGBHexadecimal => "vec3("@ + hex_channel_str(red_of(color)) + ","@ + space
            + hex_channel_str(green_of(color)) + ","@ + space + hex_channel_str(blue_of(color))
            + ")"@ + space + "/"@ + space + "255."@ + zero,
        PaletteFormat::RGBFloat => {
            let rn = round_channel(red_of(color));
            let gn = round_channel(green_of(color));
            let bn = round_channel(blue_of(color));
            if space.len() == 0 {
                if rn == gn && gn == bn {
                    "vec3("@ + float3_compact(rn) + ")"@
                } else {
                    "vec3("@ + float3_compact(rn) + ","@ + float3_compact(gn) + ","@
                        + float3_compact(bn) + ")"@
                }
            } else {
                if rn == gn && gn == bn {
                    "vec3("@ + float3_spaced(rn) + ")"@
                } else {
                    "vec3("@ + float3_spaced(rn) + ","@ + space + float3_spaced(gn) + ","@ + space
                        + float3_spaced(bn) + ")"@
                }
            }
        },
    }
}

fn red_channel(color: u32) -> (r: u32)
    ensures
        r == red_of(color as nat),
        r < 0x100,
{
    (color / 0x10000) % 0x100
}

fn green_channel(color: u32) -> (r: u32)
    ensures
        r == green_of(color as nat),
        r < 0x100,
{
    (color / 0x100) % 0x100
}

fn blue_channel(color: u32) -> (r: u32)
    ensures
        r == blue_of(color as nat),
        r < 0x100,
{
    color % 0x100
}

fn rounded_channel(c: u32) -> (r: u32)
    requires
        c < 0x100,
    ensures
        r == round_channel(c as nat),
        r <= 1000,
{
    proof {
        lemma_round_channel_bound(c as nat);
    }
    (2000 * c + 255) / 510
}

/// One palette color paired with the format and spacing under which it is
/// rendered.
#[derive(Clone, Copy, Debug)]
pub struct ColorDisplay {
    pub format: PaletteFormat,
    pub space_delim: &'static str,
    pub color: u32,
}

impl ColorDisplay {
    /// Renders the color, exactly as `color_str` states.
    pub fn render(&self) -> (r: String)
        ensures
            r@ == color_str(self.format, self.space_delim@, self.color as nat),
    {
        let space = self.space_delim;
        let compact = space.is_empty();
        match self.format {
            PaletteFormat::IntegerDecimal => dec_u32(self.color),
            PaletteFormat::IntegerHexadecimal => {
                let mut s = String::from_str("0x");
                s.append(hex_u32(self.color).as_str());
                proof {
                    assert(s@ =~= color_str(self.format, self.space_delim@, self.color as nat));
                }
                s
            },
            PaletteFormat::RGBDecimal => {
                let mut s = String::from_str("vec3(");
                s.append(dec_u32(red_channel(self.color)).as_str());
                s.append(",");
                s.append(space);
                s.append(dec_u32(green_channel(self.color)).as_str());
                s.append(",");
                s.append(space);
                s.append(dec_u32(blue_channel(self.color)).as_str());
                s.append(")");
                s.append(space);
                s.append("/");
                s.append(space);
                s.append("255.");
                if !compact {
                    s.append("0");
                }
                proof {
                    assert(s@ =~= color_str(self.format, self.space_delim@, self.color as nat));
                }
                s
            },
            PaletteFormat::RGBHexadecimal => {
                let mut s = String::from_str("vec3(");
                s.append("0x");
                s.append(hex_u32(red_channel(self.color)).as_str());
                s.append(",");
                s.append(space);
                s.append("0x");
                s.append(hex_u32(green_channel(self.color)).as_str());
                s.append(",");
                s.append(space);
                s.append("0x");
                s.append(hex_u32(blue_channel(self.color)).as_str());
                s.append(")");
                s.append(space);
                s.append("/");
                s.append(space);
                s.append("255.");
                if !compact {
                    s.append("0");
                }
                proof {
                    assert(s@ =~= color_str(self.format, self.space_delim@, self.color as nat));
                }
                s
            },
            PaletteFormat::RGBFloat => {
                let rn = rounded_channel(red_channel(self.color));
                let gn = rounded_channel(green_channel(self.color));
                let bn = rounded_channel(blue_channel(self.color));
                let mut s = String::from_str("vec3(");
                if rn == gn && gn == bn {
                    if compact {
                        s.append(float3_compact_text(rn).as_str());
                    } else {
                        s.append(float3_spaced_text(rn).as_str());
                    }
                } else {
                    if compact {
                        s.append(float3_compact_text(rn).as_str());
                        s.append(",");
                        s.append(float3_compact_text(gn).as_str());
                        s.append(",");
                        s.append(float3_compact_text(bn).as_str());
                    } else {
                        s.append(float3_spaced_text(rn).as_str());
                        s.append(",");
                        s.append(space);
                        s.append(float3_spaced_text(gn).as_str());
                        s.append(",");
                        s.append(space);
                        s.append(float3_spaced_text(bn).as_str());
                    }
                }
                s.append(")");
                proof {
                    assert(s@ =~= color_str(self.format, self.space_delim@, self.color as nat));
                }
                s
            },
        }
    }
}

} // verus!
