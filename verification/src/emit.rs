//! Emission of the shader text: array literals, the lookup function, the
//! entry point, and the orchestrating render.

use vstd::prelude::*;

use crate::color::{color_str, ColorDisplay};
use crate::config::{DisplayConfig, Error, InlineLevel, PaletteFormat};
use crate::pack::{
    max_word, num_chunks, pack_buffer, packed_words, ordered_buffer, reorder_rows, seq_max,
    valid_bits,
};
use crate::pixel_art::{bit_width, spec_compressible, PixelArt};
use crate::text::{dec_str, dec_u32};

verus! {

/// The line separator under an inline level: empty only in Geekest output.
pub open spec fn ret_delim(level: InlineLevel) -> Seq<char> {
    if level is Geekest {
        Seq::empty()
    } else {
        "\n"@
    }
}

/// The indentation prefix under an inline level.
pub open spec fn indent_delim(level: InlineLevel) -> Seq<char> {
    if level is Geekest {
        Seq::empty()
    } else {
        "    "@
    }
}

/// The space written after separators under an inline level.
pub open spec fn space_delim(level: InlineLevel) -> Seq<char> {
    if level is Geekest {
        Seq::empty()
    } else {
        " "@
    }
}

/// The statement terminator under an inline level.
pub open spec fn semi_colon(level: InlineLevel) -> Seq<char> {
    if level is Geekest {
        Seq::empty()
    } else {
        ";"@
    }
}

/// The delimiters that array emission inserts, derived from the inline
/// level: ordinary levels write line breaks, indentation, spaces and the
/// statement terminator; Geekest collapses them all to empty strings.
#[derive(Clone, Copy, Debug)]
pub struct ArrayDisplayConfig {
    pub return_delim: &'static str,
    pub indent_delim: &'static str,
    pub space_delim: &'static str,
    pub semi_colon: &'static str,
}

impl ArrayDisplayConfig {
    pub fn of_level(level: InlineLevel) -> (r: ArrayDisplayConfig)
        ensures
            r.return_delim@ == ret_delim(level),
            r.indent_delim@ == indent_delim(level),
            r.space_delim@ == space_delim(level),
            r.semi_colon@ == semi_colon(level),
    {
        proof {
            reveal_strlit("");
            assert(""@ =~= Seq::<char>::empty());
        }
        match level {
            InlineLevel::Geekest => ArrayDisplayConfig {
                return_delim: "",
                indent_delim: "",
                space_delim: "",
                semi_colon: "",
            },
            _ => ArrayDisplayConfig {
                return_delim: "\n",
                indent_delim: "    ",
                space_delim: " ",
                semi_colon: ";",
            },
        }
    }
}

/// The GLSL element type of the buffer array: plain `int` when every packed
/// word fits a signed 32-bit integer, `uint` otherwise.
pub open spec fn spec_int_type(intable: bool) -> Seq<char> {
    if intable {
        "int"@
    } else {
        "uint"@
    }
}

pub fn int_type(intable: bool) -> (r: &'static str)
    ensures
        r@ == spec_int_type(intable),
{
    if intable {
        "int"
    } else {
        "uint"
    }
}

/// The literal suffix of a buffer entry: `U` marks unsigned literals.
pub open spec fn spec_int_value_suffix(intable: bool) -> Seq<char> {
    if intable {
        Seq::empty()
    } else {
        "U"@
    }
}

pub fn int_value_suffix(intable: bool) -> (r: &'static str)
    ensures
        r@ == spec_int_value_suffix(intable),
{
    proof {
        reveal_strlit("");
        assert(""@ =~= Seq::<char>::empty());
    }
    if intable {
        ""
    } else {
        "U"
    }
}

/// One palette entry line: indentation, the color literal, a comma unless it
/// is the last entry, and a line separator.
pub open spec fn palette_item(
    palette: Seq<u32>,
    fmt: PaletteFormat,
    level: InlineLevel,
    i: int,
) -> Seq<char> {
    indent_delim(level) + color_str(fmt, space_delim(level), palette[i] as nat) + (if i + 1
        != palette.len() {
        ","@
    } else {
        Seq::empty()
    }) + ret_delim(level)
}

/// The first `n` palette entry lines, concatenated.
pub open spec fn palette_items(
    palette: Seq<u32>,
    fmt: PaletteFormat,
    level: InlineLevel,
    n: int,
) -> Seq<char>
    decreases n,
{
    if n <= 0 {
        Seq::empty()
    } else {
        palette_items(palette, fmt, level, n - 1) + palette_item(palette, fmt, level, n - 1)
    }
}

/// The palette array literal: element type, opening bracket, one entry per
/// distinct color in palette order, and the closing bracket with the
/// terminator the inline level dictates.
pub open spec fn palette_array_str(
    palette: Seq<u32>,
    fmt: PaletteFormat,
    level: InlineLevel,
) -> Seq<char> {
    fmt.spec_element_type() + "[]("@ + ret_delim(level) + palette_items(
        palette,
        fmt,
        level,
        palette.len() as int,
    ) + ")"@ + semi_colon(level) + ret_delim(level) + ret_delim(level)
}

/// The named palette constant declaration that the structured (non-Geekest)
/// output opens with.
pub open spec fn non_inline_palette_str(
    palette: Seq<u32>,
    fmt: PaletteFormat,
    level: InlineLevel,
) -> Seq<char> {
    "const "@ + fmt.spec_element_type() + " PALETTE[] = "@ + palette_array_str(palette, fmt, level)
}

/// Pixel art display, format the pixel art according to `DisplayConfig`.
#[derive(Clone, Copy, Debug)]
pub struct Display<'a> {
    pub entity: &'a PixelArt,
    pub config: DisplayConfig,
}

impl PixelArt {
    pub fn display(&self, config: DisplayConfig) -> (r: Result<Display<'_>, Error>)
        ensures
            r matches Ok(d) && d.entity == self && d.config == config,
    {
        Ok(Display { entity: self, config })
    }
}

impl<'a> Display<'a> {
    /// Renders the palette array literal, exactly as `palette_array_str`
    /// states.
    pub fn fmt_palette_array(&self) -> (r: String)
        requires
            self.entity.palette@.len() >= 1,
        ensures
            r@ == palette_array_str(
                self.entity.palette@,
                self.config.palette_format,
                self.config.inline_level,
            ),
    {
        let format = self.config.palette_format;
        let level = self.config.inline_level;
        let delims = ArrayDisplayConfig::of_level(level);
        let mut s = String::from_str(format.element_type());
        s.append("[](");
        s.append(delims.return_delim);
        let len = self.entity.palette.len();
        let mut i: usize = 0;
        while i < len
            invariant
                len == self.entity.palette@.len(),
                i <= len,
                format == self.config.palette_format,
                level == self.config.inline_level,
                delims.return_delim@ == ret_delim(level),
                delims.indent_delim@ == indent_delim(level),
                delims.space_delim@ == space_delim(level),
                s@ == format.spec_element_type() + "[]("@ + ret_delim(level) + palette_items(
                    self.entity.palette@,
                    format,
                    level,
                    i as int,
                ),
            decreases len - i,
        {
            let color = self.entity.palette[i];
            let display = ColorDisplay { format, space_delim: delims.space_delim, color };
            s.append(delims.indent_delim);
            s.append(display.render().as_str());
            if i + 1 != len {
                s.append(",");
            }
            s.append(delims.return_delim);
            i += 1;
            proof {
                assert(s@ =~= format.spec_element_type() + "[]("@ + ret_delim(level)
                    + palette_items(self.entity.palette@, format, level, i as int));
            }
        }
        s.append(")");
        s.append(delims.semi_colon);
        s.append(delims.return_delim);
        s.append(delims.return_delim);
        proof {
            assert(s@ =~= palette_array_str(self.entity.palette@, format, level));
        }
        s
    }

    /// Renders the named palette constant declaration.
    pub fn fmt_non_inline_palette(&self) -> (r: String)
        requires
            self.entity.palette@.len() >= 1,
        ensures
            r@ == non_inline_palette_str(
                self.entity.palette@,
                self.config.palette_format,
                self.config.inline_level,
            ),
    {
        let mut s = String::from_str("const ");
        s.append(self.config.palette_format.element_type());
        s.append(" PALETTE[] = ");
        s.append(self.fmt_palette_array().as_str());
        proof {
            assert(s@ =~= non_inline_palette_str(
                self.entity.palette@,
                self.config.palette_format,
                self.config.inline_level,
            ));
        }
        s
    }
}

/// The planned bit width of this pixel art's indices.
pub open spec fn display_bits(art: PixelArt) -> nat {
    bit_width(art.palette@.len())
}

/// The numbers the buffer array lists: the packed words when compression
/// applies, the row-ordered raw indices otherwise.
pub open spec fn display_words(art: PixelArt, cfg: DisplayConfig) -> Seq<u32> {
    let ordered = ordered_buffer(
        art.buffer@,
        art.width as nat,
        art.height as nat,
        cfg.buffer_format.reverse_rows,
    );
    if spec_compressible(art.palette@.len(), cfg.buffer_format.force_to_raw) {
        packed_words(ordered, display_bits(art), cfg.buffer_format.reverse_each_chunk)
    } else {
        ordered
    }
}

/// Whether every emitted buffer entry fits a signed 32-bit integer. This is
/// a property of the chosen packing, not of the pixel art.
pub open spec fn display_intable(art: PixelArt, cfg: DisplayConfig) -> bool {
    (seq_max(display_words(art, cfg)) as nat) < 0x80000000
}

/// How many buffer entries share one emitted line: eight packed words, or
/// one image row of raw values.
pub open spec fn display_group(art: PixelArt, cfg: DisplayConfig) -> int {
    if spec_compressible(art.palette@.len(), cfg.buffer_format.force_to_raw) {
        8
    } else {
        art.width as int
    }
}

/// One buffer entry: indentation at a line start, the decimal literal with
/// its signedness suffix, and the separator its position dictates.
pub open spec fn buffer_item(
    words: Seq<u32>,
    intable: bool,
    level: InlineLevel,
    group: int,
    t: int,
) -> Seq<char> {
    let head = if t % group == 0 {
        indent_delim(level)
    } else {
        Seq::<char>::empty()
    };
    let last_in_row = t + 1 == words.len() || (t + 1) % group == 0;
    let last_row = t / group == (words.len() - 1) / group;
    let sep = if last_in_row {
        if last_row {
            ret_delim(level)
        } else {
            ","@ + ret_delim(level)
        }
    } else {
        ","@ + space_delim(level)
    };
    head + dec_str(words[t] as nat) + spec_int_value_suffix(intable) + sep
}

/// The first `n` buffer entries, concatenated.
pub open spec fn buffer_items(
    words: Seq<u32>,
    intable: bool,
    level: InlineLevel,
    group: int,
    n: int,
) -> Seq<char>
    decreases n,
{
    if n <= 0 {
        Seq::empty()
    } else {
        buffer_items(words, intable, level, group, n - 1) + buffer_item(
            words,
            intable,
            level,
            group,
            n - 1,
        )
    }
}

/// The buffer array literal: integer type, opening bracket, the entries
/// line-wrapped every `group` values, and the closing bracket with the
/// terminator the inline level dictates.
pub open spec fn buffer_array_str(
    words: Seq<u32>,
    intable: bool,
    level: InlineLevel,
    group: int,
) -> Seq<char> {
    spec_int_type(intable) + "[]("@ + ret_delim(level) + buffer_items(
        words,
        intable,
        level,
        group,
        words.len() as int,
    ) + ")"@ + semi_colon(level) + ret_delim(level) + ret_delim(level)
}

impl<'a> Display<'a> {
    /// The buffer in the order the text lists it: rows flipped when the
    /// configuration asks for it.
    pub fn current_row_buffer(&self) -> (r: Vec<u32>)
        requires
            self.entity.wf(),
        ensures
            r@ == ordered_buffer(
                self.entity.buffer@,
                self.entity.width as nat,
                self.entity.height as nat,
                self.config.buffer_format.reverse_rows,
            ),
            r@.len() == self.entity.buffer@.len(),
    {
        reorder_rows(
            &self.entity.buffer,
            self.entity.width,
            self.entity.height,
            self.config.buffer_format.reverse_rows,
        )
    }

    pub fn is_compressible(&self) -> (r: bool)
        ensures
            r == spec_compressible(
                self.entity.palette@.len(),
                self.config.buffer_format.force_to_raw,
            ),
    {
        !self.config.buffer_format.force_to_raw && self.entity.is_compressible()
    }

    /// Packs the row-ordered buffer into words when compression applies (raw
    /// passthrough otherwise), and decides the emitted signedness.
    pub fn compressed_buffer(&self) -> (r: (Vec<u32>, bool))
        requires
            self.entity.wf(),
        ensures
            r.0@ == display_words(*self.entity, self.config),
            r.1 == display_intable(*self.entity, self.config),
            r.0@.len() >= 1,
    {
        let buffer = self.current_row_buffer();
        proof {
            assert((self.entity.width as int) * (self.entity.height as int) >= 1)
                by (nonlinear_arith)
                requires
                    self.entity.width >= 1 && self.entity.height >= 1,
            ;
        }
        let buffer = if self.is_compressible() {
            let bit_shift = self.entity.necessary_bit_shift();
            proof {
                crate::semantics::lemma_ordered_elements_bound(
                    *self.entity,
                    self.config.buffer_format.reverse_rows,
                );
                lemma_nonempty_chunks(buffer@.len() as int, crate::pack::chunk_len(
                    bit_shift as nat,
                ) as int);
            }
            pack_buffer(&buffer, bit_shift, self.config.buffer_format.reverse_each_chunk)
        } else {
            buffer
        };
        let intable = max_word(&buffer) < 0x80000000;
        (buffer, intable)
    }

    /// Renders the buffer array literal, exactly as `buffer_array_str`
    /// states.
    #[verifier::rlimit(100)]
    pub fn fmt_buffer_array(&self, buffer: &Vec<u32>, intable: bool) -> (r: String)
        requires
            self.entity.wf(),
            buffer@.len() >= 1,
        ensures
            r@ == buffer_array_str(
                buffer@,
                intable,
                self.config.inline_level,
                display_group(*self.entity, self.config),
            ),
    {
        let level = self.config.inline_level;
        let delims = ArrayDisplayConfig::of_level(level);
        let ghost group = display_group(*self.entity, self.config);
        let format_chunk_size: usize = if self.is_compressible() {
            8
        } else {
            self.entity.width as usize
        };
        let len = buffer.len();
        let mut s = String::from_str(int_type(intable));
        s.append("[](");
        s.append(delims.return_delim);
        let mut t: usize = 0;
        while t < len
            invariant
                len == buffer@.len(),
                len >= 1,
                t <= len,
                level == self.config.inline_level,
                group == display_group(*self.entity, self.config),
                format_chunk_size as int == group,
                format_chunk_size >= 1,
                delims.return_delim@ == ret_delim(level),
                delims.indent_delim@ == indent_delim(level),
                delims.space_delim@ == space_delim(level),
                s@ == spec_int_type(intable) + "[]("@ + ret_delim(level) + buffer_items(
                    buffer@,
                    intable,
                    level,
                    group,
                    t as int,
                ),
            decreases len - t,
        {
            if t % format_chunk_size == 0 {
                s.append(delims.indent_delim);
            }
            s.append(dec_u32(buffer[t]).as_str());
            s.append(int_value_suffix(intable));
            let last_in_row = t + 1 == len || (t + 1) % format_chunk_size == 0;
            let last_row = t / format_chunk_size == (len - 1) / format_chunk_size;
            if last_in_row {
                if last_row {
                    s.append(delims.return_delim);
                } else {
                    s.append(",");
                    s.append(delims.return_delim);
                }
            } else {
                s.append(",");
                s.append(delims.space_delim);
            }
            t += 1;
            proof {
                assert(s@ =~= spec_int_type(intable) + "[]("@ + ret_delim(level) + buffer_items(
                    buffer@,
                    intable,
                    level,
                    group,
                    t as int,
                ));
            }
        }
        s.append(")");
        s.append(delims.semi_colon);
        s.append(delims.return_delim);
        s.append(delims.return_delim);
        proof {
            assert(s@ =~= buffer_array_str(buffer@, intable, level, group));
        }
        s
    }
}

/// The text of `x / 2` as the shader writes a half-integer float literal:
/// `12.0` for 24, `12.5` for 25.
pub open spec fn half_str(x: nat) -> Seq<char> {
    dec_str(x / 2) + (if x % 2 == 0 {
        ".0"@
    } else {
        ".5"@
    })
}

fn half_text(x: u32) -> (r: String)
    ensures
        r@ == half_str(x as nat),
{
    let mut s = dec_u32(x / 2);
    if x % 2 == 0 {
        s.append(".0");
    } else {
        s.append(".5");
    }
    proof {
        assert(s@ =~= half_str(x as nat));
    }
    s
}

/// Whether the lookup function may read the buffer word at `u.y` directly,
/// without flattening the coordinate first: one image row fills exactly one
/// word, and the buffer was packed bottom-up, so `u.y` is the word index.
pub open spec fn same_size(art: PixelArt, cfg: DisplayConfig) -> bool {
    art.width as nat == crate::pack::chunk_len(display_bits(art))
        && cfg.buffer_format.reverse_rows
}

/// The named or literal width term used inside the lookup function.
pub open spec fn gc_width_str(art: PixelArt, cfg: DisplayConfig) -> Seq<char> {
    if cfg.inline_level is NoInline {
        "WIDTH"@
    } else {
        dec_str(art.width as nat)
    }
}

/// The flat-index line of the lookup function: absent only when one row
/// fills exactly one bottom-up word at a literal-specialized level.
pub open spec fn gc_idx_line(art: PixelArt, cfg: DisplayConfig) -> Seq<char> {
    let inline_none = cfg.inline_level is NoInline;
    let compressible = spec_compressible(art.palette@.len(), cfg.buffer_format.force_to_raw);
    let h1 = if inline_none {
        "HEIGHT - 1"@
    } else {
        dec_str((art.height - 1) as nat)
    };
    if !same_size(art, cfg) || inline_none || !compressible {
        if cfg.buffer_format.reverse_rows {
            "    int idx = u.y * "@ + gc_width_str(art, cfg) + " + u.x;\n"@
        } else {
            "    int idx = ("@ + h1 + " - u.y) * "@ + gc_width_str(art, cfg) + " + u.x;\n"@
        }
    } else {
        Seq::<char>::empty()
    }
}

/// The named or literal chunk-count term of the lookup function.
pub open spec fn gc_chunks_str(art: PixelArt, cfg: DisplayConfig) -> Seq<char> {
    if cfg.inline_level is NoInline {
        "CHUNKS_IN_U32"@
    } else {
        dec_str(crate::pack::chunk_len(display_bits(art)))
    }
}

/// The chunk-coordinate remapping lines of the lookup function.
pub open spec fn gc_remap(art: PixelArt, cfg: DisplayConfig) -> Seq<char> {
    let inline_none = cfg.inline_level is NoInline;
    if !same_size(art, cfg) || inline_none {
        "    u = ivec2(idx % "@ + gc_chunks_str(art, cfg) + ", idx / "@ + gc_chunks_str(art, cfg)
            + ");\n"@ + (if inline_none {
            "    int bitShift = 32 / CHUNKS_IN_U32;\n"@
        } else {
            Seq::<char>::empty()
        })
    } else {
        Seq::<char>::empty()
    }
}

/// The return line of the lookup function on the compressed path: the
/// shift/mask extraction with the same offset formula the packer used.
pub open spec fn gc_return_line(art: PixelArt, cfg: DisplayConfig, intable: bool) -> Seq<char> {
    let inline_none = cfg.inline_level is NoInline;
    let b = display_bits(art);
    let k = crate::pack::chunk_len(b);
    let sfx = spec_int_value_suffix(intable);
    let rem = if inline_none {
        "(1"@ + sfx + " << bitShift) - 1"@ + sfx
    } else {
        dec_str((vstd::arithmetic::power2::pow2(b) - 1) as nat) + sfx
    };
    let semi_chunks = if inline_none {
        "CHUNKS_IN_U32 - 1"@
    } else {
        dec_str((k - 1) as nat)
    };
    let bsh = if inline_none {
        "32 / CHUNKS_IN_U32"@
    } else {
        dec_str(b)
    };
    if cfg.buffer_format.reverse_each_chunk {
        "    return PALETTE[BUFFER[u.y] >> u.x * "@ + bsh + " & "@ + rem + "];\n"@
    } else {
        "    return PALETTE[BUFFER[u.y] >> ("@ + semi_chunks + " - u.x) * "@ + bsh + " & "@ + rem
            + "];\n"@
    }
}

/// The coordinate-to-color lookup function, as text. Branches on the
/// palette element type, on whether the buffer is compressed (adding the
/// chunk arithmetic and the shift/mask extraction with the same offset
/// formula the packer used), and on the row-order policy (adding a y-flip
/// term when the rows were not reversed at pack time).
pub open spec fn get_color_str(art: PixelArt, cfg: DisplayConfig, intable: bool) -> Seq<char> {
    let compressible = spec_compressible(art.palette@.len(), cfg.buffer_format.force_to_raw);
    let body = if compressible {
        gc_remap(art, cfg) + gc_return_line(art, cfg, intable)
    } else {
        "    return PALETTE[BUFFER[idx]];\n"@
    };
    cfg.palette_format.spec_element_type() + " getColor(in ivec2 u) {\n"@ + gc_idx_line(art, cfg)
        + body + "}\n\n"@
}

/// The shader entry point, as text: maps fragment coordinates to image
/// coordinates with a bottom-left origin and paints out-of-range pixels
/// mid-gray. Size-dependent quantities are named constants at the plain
/// inline level and baked literals otherwise.
pub open spec fn main_str(art: PixelArt, cfg: DisplayConfig) -> Seq<char> {
    let inline_none = cfg.inline_level is NoInline;
    let ws = if inline_none {
        "WIDTH"@
    } else {
        dec_str(art.width as nat)
    };
    let hs = if inline_none {
        "HEIGHT"@
    } else {
        dec_str(art.height as nat)
    };
    let fh = if inline_none {
        "float(HEIGHT)"@
    } else {
        dec_str(art.height as nat) + ".0"@
    };
    let hv = if inline_none {
        "vec2(WIDTH, HEIGHT) / 2.0"@
    } else {
        "vec2("@ + half_str(art.width as nat) + ", "@ + half_str(art.height as nat) + ")"@
    };
    let getc = if cfg.palette_format.spec_is_integer() {
        "int2rgb(getColor(u))"@
    } else {
        "getColor(u)"@
    };
    "void mainImage(out vec4 O, in vec2 U) {\n    vec2 r = iResolution.xy;\n    ivec2 u = ivec2(floor((U - 0.5 * r) / r.y * "@
        + fh + " + "@ + hv + "));\n    O.xyz = u == abs(u) && u.x < "@ + ws + " && u.y < "@ + hs
        + " ? "@ + getc + " : vec3(0.5);\n}\n"@
}

/// The helper that turns an integer palette entry back into an RGB vector,
/// emitted whenever the palette format is integer-valued.
pub open spec fn int_to_rgb_str() -> Seq<char> {
    "vec3 int2rgb(int color) {\n    return vec3((color & 0xff0000) >> 16, (color & 0xff00) >> 8, color & 0xff) / 255.0;\n}\n\n"@
}

/// The coordinate head of the Geekest statement.
pub open spec fn g_head(art: PixelArt) -> Seq<char> {
    let w = art.width as nat;
    let h = art.height as nat;
    let size_vec = if w == h {
        dec_str(w) + "."@
    } else {
        "vec2("@ + dec_str(w) + ","@ + dec_str(h) + ")"@
    };
    "ivec2 u=ivec2(FC.xy/r*"@ + size_vec + ");"@
}

/// The flat-index declaration of the Geekest statement, emitted only when
/// the packed rows and the words do not coincide.
pub open spec fn g_decl(art: PixelArt, cfg: DisplayConfig) -> Seq<char> {
    let compressible = spec_compressible(art.palette@.len(), cfg.buffer_format.force_to_raw);
    if compressible && art.width as nat != crate::pack::chunk_len(display_bits(art)) {
        "int i=u.y*"@ + dec_str(art.width as nat) + "+u.x;"@
    } else {
        Seq::<char>::empty()
    }
}

/// The trailing index expression of the Geekest statement.
pub open spec fn g_index_expr(art: PixelArt, cfg: DisplayConfig) -> Seq<char> {
    let b = display_bits(art);
    let k = crate::pack::chunk_len(b);
    let compressible = spec_compressible(art.palette@.len(), cfg.buffer_format.force_to_raw);
    if compressible {
        let mask = dec_str((vstd::arithmetic::power2::pow2(b) - 1) as nat);
        if art.width as nat != k {
            "[i/"@ + dec_str(k) + "]>>i*"@ + dec_str(b) + "&"@ + mask
        } else {
            "[u.y]>>u.x*"@ + dec_str(b) + "&"@ + mask
        }
    } else {
        "[u.y*"@ + dec_str(art.width as nat) + "+u.x]"@
    }
}

/// The single minified Geekest statement: computes the image coordinate
/// from the externally supplied fragment coordinate and resolution, then
/// indexes the palette and buffer array literals in place. The shift
/// `i * bits` relies on the host masking shift amounts modulo 32.
pub open spec fn geekest_str(art: PixelArt, cfg: DisplayConfig) -> Seq<char> {
    g_head(art) + g_decl(art, cfg) + "o.xyz="@ + palette_array_str(
        art.palette@,
        cfg.palette_format,
        InlineLevel::Geekest,
    ) + "["@ + buffer_array_str(
        display_words(art, cfg),
        display_intable(art, cfg),
        InlineLevel::Geekest,
        display_group(art, cfg),
    ) + g_index_expr(art, cfg) + "];"@
}

/// The size and chunk-count constants that open the buffer declaration at
/// the plain inline level.
pub open spec fn size_constants_str(art: PixelArt, cfg: DisplayConfig) -> Seq<char> {
    if cfg.inline_level is NoInline {
        "const int WIDTH = "@ + dec_str(art.width as nat) + ", HEIGHT = "@ + dec_str(
            art.height as nat,
        ) + (if spec_compressible(art.palette@.len(), cfg.buffer_format.force_to_raw) {
            ", CHUNKS_IN_U32 = "@ + dec_str(crate::pack::chunk_len(display_bits(art))) + ";\n"@
        } else {
            ";\n"@
        })
    } else {
        Seq::<char>::empty()
    }
}

/// The named buffer constant declaration, preceded by the size constants at
/// the plain inline level.
pub open spec fn non_inline_buffer_str(art: PixelArt, cfg: DisplayConfig) -> Seq<char> {
    size_constants_str(art, cfg) + "const "@ + spec_int_type(display_intable(art, cfg))
        + " BUFFER[] = "@ + buffer_array_str(
        display_words(art, cfg),
        display_intable(art, cfg),
        cfg.inline_level,
        display_group(art, cfg),
    )
}

/// The full rendered text under the configuration the caller asked for,
/// after the Geekest override is applied: the single compacted statement in
/// Geekest mode, otherwise the palette declaration, the buffer declaration,
/// the int-to-RGB helper when the palette format is integer-valued, the
/// lookup function, and the entry point, in that order.
pub open spec fn render_str(art: PixelArt, cfg: DisplayConfig) -> Seq<char> {
    let e = cfg.spec_effective();
    if e.inline_level is Geekest {
        geekest_str(art, e)
    } else {
        non_inline_palette_str(art.palette@, e.palette_format, e.inline_level)
            + non_inline_buffer_str(art, e) + (if e.palette_format.spec_is_integer() {
            int_to_rgb_str()
        } else {
            Seq::<char>::empty()
        }) + get_color_str(art, e, display_intable(art, e)) + main_str(art, e)
    }
}

fn bit_mask_text(bits: usize) -> (r: String)
    requires
        valid_bits(bits as nat),
    ensures
        r@ == dec_str((vstd::arithmetic::power2::pow2(bits as nat) - 1) as nat),
{
    proof {
        vstd::arithmetic::power2::lemma2_to64();
    }
    let mask: u32 = match bits {
        1 => 1,
        2 => 3,
        4 => 15,
        8 => 255,
        _ => 65535,
    };
    dec_u32(mask)
}

impl<'a> Display<'a> {
    /// Renders the buffer declaration and reports the signedness choice for
    /// the later lookup emission.
    pub fn fmt_non_inline_buffer(&self) -> (r: (String, bool))
        requires
            self.entity.wf(),
        ensures
            r.0@ == non_inline_buffer_str(*self.entity, self.config),
            r.1 == display_intable(*self.entity, self.config),
    {
        let (buffer, intable) = self.compressed_buffer();
        let mut s = String::new();
        if matches!(self.config.inline_level, InlineLevel::NoInline) {
            s.append("const int WIDTH = ");
            s.append(dec_u32(self.entity.width).as_str());
            s.append(", HEIGHT = ");
            s.append(dec_u32(self.entity.height).as_str());
            if self.is_compressible() {
                let chunk = 32 / self.entity.necessary_bit_shift();
                s.append(", CHUNKS_IN_U32 = ");
                s.append(dec_u32(chunk as u32).as_str());
                s.append(";\n");
            } else {
                s.append(";\n");
            }
        }
        proof {
            assert(s@ =~= size_constants_str(*self.entity, self.config));
        }
        s.append("const ");
        s.append(int_type(intable));
        s.append(" BUFFER[] = ");
        s.append(self.fmt_buffer_array(&buffer, intable).as_str());
        proof {
            assert(s@ =~= non_inline_buffer_str(*self.entity, self.config));
        }
        (s, intable)
    }

    fn fmt_gc_idx_line(&self) -> (r: String)
        requires
            self.entity.wf(),
        ensures
            r@ == gc_idx_line(*self.entity, self.config),
    {
        let bits = self.entity.necessary_bit_shift();
        let chunk = 32 / bits;
        let compressible = self.is_compressible();
        let inline_none = matches!(self.config.inline_level, InlineLevel::NoInline);
        let shortcut = self.entity.width as usize == chunk
            && self.config.buffer_format.reverse_rows;
        let mut s = String::new();
        if !shortcut || inline_none || !compressible {
            if self.config.buffer_format.reverse_rows {
                s.append("    int idx = u.y * ");
                if inline_none {
                    s.append("WIDTH");
                } else {
                    s.append(dec_u32(self.entity.width).as_str());
                }
                s.append(" + u.x;\n");
            } else {
                s.append("    int idx = (");
                if inline_none {
                    s.append("HEIGHT - 1");
                } else {
                    s.append(dec_u32(self.entity.height - 1).as_str());
                }
                s.append(" - u.y) * ");
                if inline_none {
                    s.append("WIDTH");
                } else {
                    s.append(dec_u32(self.entity.width).as_str());
                }
                s.append(" + u.x;\n");
            }
        }
        proof {
            assert(s@ =~= gc_idx_line(*self.entity, self.config));
        }
        s
    }

    fn fmt_gc_remap(&self) -> (r: String)
        requires
            self.entity.wf(),
        ensures
            r@ == gc_remap(*self.entity, self.config),
    {
        let bits = self.entity.necessary_bit_shift();
        let chunk = 32 / bits;
        let inline_none = matches!(self.config.inline_level, InlineLevel::NoInline);
        let shortcut = self.entity.width as usize == chunk
            && self.config.buffer_format.reverse_rows;
        let mut s = String::new();
        if !shortcut || inline_none {
            s.append("    u = ivec2(idx % ");
            if inline_none {
                s.append("CHUNKS_IN_U32");
            } else {
                s.append(dec_u32(chunk as u32).as_str());
            }
            s.append(", idx / ");
            if inline_none {
                s.append("CHUNKS_IN_U32");
            } else {
                s.append(dec_u32(chunk as u32).as_str());
            }
            s.append(");\n");
            if inline_none {
                s.append("    int bitShift = 32 / CHUNKS_IN_U32;\n");
            }
        }
        proof {
            assert(s@ =~= gc_remap(*self.entity, self.config));
        }
        s
    }

    fn fmt_gc_return_line(&self, intable: bool) -> (r: String)
        requires
            self.entity.wf(),
            spec_compressible(self.entity.palette@.len(), self.config.buffer_format.force_to_raw),
        ensures
            r@ == gc_return_line(*self.entity, self.config, intable),
    {
        let bits = self.entity.necessary_bit_shift();
        let chunk = 32 / bits;
        let inline_none = matches!(self.config.inline_level, InlineLevel::NoInline);
        let mut s = String::new();
        if self.config.buffer_format.reverse_each_chunk {
            s.append("    return PALETTE[BUFFER[u.y] >> u.x * ");
        } else {
            s.append("    return PALETTE[BUFFER[u.y] >> (");
            if inline_none {
                s.append("CHUNKS_IN_U32 - 1");
            } else {
                s.append(dec_u32((chunk - 1) as u32).as_str());
            }
            s.append(" - u.x) * ");
        }
        if inline_none {
            s.append("32 / CHUNKS_IN_U32");
        } else {
            s.append(dec_u32(bits as u32).as_str());
        }
        s.append(" & ");
        if inline_none {
            s.append("(1");
            s.append(int_value_suffix(intable));
            s.append(" << bitShift) - 1");
            s.append(int_value_suffix(intable));
        } else {
            s.append(bit_mask_text(bits).as_str());
            s.append(int_value_suffix(intable));
        }
        s.append("];\n");
        proof {
            assert(s@ =~= gc_return_line(*self.entity, self.config, intable));
        }
        s
    }

    /// Renders the coordinate-to-color lookup function, exactly as
    /// `get_color_str` states.
    pub fn fmt_get_color(&self, intable: bool) -> (r: String)
        requires
            self.entity.wf(),
        ensures
            r@ == get_color_str(*self.entity, self.config, intable),
    {
        let mut s = String::from_str(self.config.palette_format.element_type());
        s.append(" getColor(in ivec2 u) {\n");
        s.append(self.fmt_gc_idx_line().as_str());
        if self.is_compressible() {
            s.append(self.fmt_gc_remap().as_str());
            s.append(self.fmt_gc_return_line(intable).as_str());
        } else {
            s.append("    return PALETTE[BUFFER[idx]];\n");
        }
        s.append("}\n\n");
        proof {
            assert(s@ =~= get_color_str(*self.entity, self.config, intable));
        }
        s
    }

    /// Renders the shader entry point, exactly as `main_str` states.
    pub fn fmt_main(&self) -> (r: String)
        requires
            self.entity.wf(),
        ensures
            r@ == main_str(*self.entity, self.config),
    {
        let inline_none = matches!(self.config.inline_level, InlineLevel::NoInline);
        let mut s = String::from_str(
            "void mainImage(out vec4 O, in vec2 U) {\n    vec2 r = iResolution.xy;\n    ivec2 u = ivec2(floor((U - 0.5 * r) / r.y * ",
        );
        if inline_none {
            s.append("float(HEIGHT)");
        } else {
            s.append(dec_u32(self.entity.height).as_str());
            s.append(".0");
        }
        s.append(" + ");
        if inline_none {
            s.append("vec2(WIDTH, HEIGHT) / 2.0");
        } else {
            s.append("vec2(");
            s.append(half_text(self.entity.width).as_str());
            s.append(", ");
            s.append(half_text(self.entity.height).as_str());
            s.append(")");
        }
        s.append("));\n    O.xyz = u == abs(u) && u.x < ");
        if inline_none {
            s.append("WIDTH");
        } else {
            s.append(dec_u32(self.entity.width).as_str());
        }
        s.append(" && u.y < ");
        if inline_none {
            s.append("HEIGHT");
        } else {
            s.append(dec_u32(self.entity.height).as_str());
        }
        s.append(" ? ");
        if self.config.palette_format.is_integer() {
            s.append("int2rgb(getColor(u))");
        } else {
            s.append("getColor(u)");
        }
        s.append(" : vec3(0.5);\n}\n");
        proof {
            assert(s@ =~= main_str(*self.entity, self.config));
        }
        s
    }

    /// Renders the single minified Geekest statement, exactly as
    /// `geekest_str` states. Only the overridden configuration shape is
    /// accepted: the Geekest host tolerates only the RGBFloat palette form,
    /// and its decode expression assumes compressed packing, so the caller
    /// must have applied the override first (as `render` does).
    #[verifier::rlimit(60)]
    pub fn fmt_geekest(&self) -> (r: String)
        requires
            self.entity.wf(),
            self.config.inline_level is Geekest,
            self.config.palette_format is RGBFloat,
            !self.config.buffer_format.force_to_raw,
        ensures
            r@ == geekest_str(*self.entity, self.config),
    {
        let ghost art = *self.entity;
        let ghost cfg = self.config;
        let w = self.entity.width;
        let h = self.entity.height;
        let bits = self.entity.necessary_bit_shift();
        let chunk = 32 / bits;
        let compressible = self.is_compressible();
        let mut s = String::from_str("ivec2 u=ivec2(FC.xy/r*");
        if w == h {
            s.append(dec_u32(w).as_str());
            s.append(".");
        } else {
            s.append("vec2(");
            s.append(dec_u32(w).as_str());
            s.append(",");
            s.append(dec_u32(h).as_str());
            s.append(")");
        }
        s.append(");");
        proof {
            assert(s@ =~= g_head(art));
        }
        if compressible && w as usize != chunk {
            s.append("int i=u.y*");
            s.append(dec_u32(w).as_str());
            s.append("+u.x;");
        }
        s.append("o.xyz=");
        proof {
            assert(s@ =~= g_head(art) + g_decl(art, cfg) + "o.xyz="@);
        }
        s.append(self.fmt_palette_array().as_str());
        s.append("[");
        let (buffer, intable) = self.compressed_buffer();
        s.append(self.fmt_buffer_array(&buffer, intable).as_str());
        proof {
            assert(s@ =~= g_head(art) + g_decl(art, cfg) + "o.xyz="@ + palette_array_str(
                art.palette@,
                cfg.palette_format,
                InlineLevel::Geekest,
            ) + "["@ + buffer_array_str(
                display_words(art, cfg),
                display_intable(art, cfg),
                InlineLevel::Geekest,
                display_group(art, cfg),
            ));
        }
        if compressible {
            if w as usize != chunk {
                s.append("[i/");
                s.append(dec_u32(chunk as u32).as_str());
                s.append("]>>i*");
            } else {
                s.append("[u.y]>>u.x*");
            }
            s.append(dec_u32(bits as u32).as_str());
            s.append("&");
            s.append(bit_mask_text(bits).as_str());
        } else {
            s.append("[u.y*");
            s.append(dec_u32(w).as_str());
            s.append("+u.x]");
        }
        s.append("];");
        proof {
            assert(s@ =~= geekest_str(art, cfg));
        }
        s
    }

    /// Renders the shader text for this pixel art under this configuration:
    /// pure, deterministic, and total for any well-formed pixel art. The
    /// Geekest override is applied first, then either the single compacted
    /// statement or the structured declarations are emitted.
    pub fn render(&self) -> (r: String)
        requires
            self.entity.wf(),
        ensures
            r@ == render_str(*self.entity, self.config),
    {
        let eff = Display { entity: self.entity, config: self.config.effective() };
        if matches!(eff.config.inline_level, InlineLevel::Geekest) {
            eff.fmt_geekest()
        } else {
            let mut s = eff.fmt_non_inline_palette();
            let (buffer_text, intable) = eff.fmt_non_inline_buffer();
            s.append(buffer_text.as_str());
            if eff.config.palette_format.is_integer() {
                s.append(
                    "vec3 int2rgb(int color) {\n    return vec3((color & 0xff0000) >> 16, (color & 0xff00) >> 8, color & 0xff) / 255.0;\n}\n\n",
                );
            }
            s.append(eff.fmt_get_color(intable).as_str());
            s.append(eff.fmt_main().as_str());
            proof {
                assert(s@ =~= render_str(*self.entity, self.config));
            }
            s
        }
    }
}

/// Requesting the Geekest inline level renders with the RGBFloat palette
/// format and compressed packing regardless of the requested palette format
/// and `force_to_raw` flag: the text equals a render under the overridden
/// configuration.
pub proof fn lemma_geekest_render_override(art: PixelArt, cfg: DisplayConfig)
    requires
        cfg.inline_level is Geekest,
    ensures
        render_str(art, cfg) == geekest_str(art, cfg.spec_effective()),
        cfg.spec_effective().palette_format is RGBFloat,
        !cfg.spec_effective().buffer_format.force_to_raw,
        render_str(art, cfg) == render_str(art, cfg.spec_effective()),
{
}

/// A nonempty buffer fills at least one chunk.
proof fn lemma_nonempty_chunks(len: int, size: int)
    requires
        len >= 1,
        size >= 1,
    ensures
        num_chunks(len as nat, size as nat) >= 1,
{
    vstd::arithmetic::div_mod::lemma_mod_bound(len, size);
    vstd::arithmetic::div_mod::lemma_fundamental_div_mod(len, size);
    if len % size == 0 {
        assert(len == size * (len / size));
        assert(len / size >= 1) by (nonlinear_arith)
            requires
                len >= 1,
                size >= 1,
                len == size * (len / size),
        ;
    }
}

} // verus!
