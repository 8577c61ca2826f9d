//! Configuration values that select how a pixel art is rendered to text.

use vstd::prelude::*;

verus! {

/// palette display format
#[derive(Clone, Copy, Debug, PartialEq, Eq, Structural)]
pub enum PaletteFormat {
    /// U32 decimal integer format, e.g. `11596387`.
    IntegerDecimal,
    /// U32 hexadecimal integer format, e.g. `0xb0f263`.
    IntegerHexadecimal,
    /// RGB integer format, e.g. `vec3(176, 242, 99) / 255.0`.
    RGBDecimal,
    /// RGB hexadecimal format, e.g. `vec3(0xb0, 0xf2, 0x63) / 255.0`.
    RGBHexadecimal,
    /// RGB float format, e.g. `vec3(0.690, 0.949, 0.388)`.
    RGBFloat,
}

impl PaletteFormat {
    /// Whether a palette entry is emitted as a single integer literal.
    pub open spec fn spec_is_integer(&self) -> bool {
        self is IntegerDecimal || self is IntegerHexadecimal
    }

    #[verifier::when_used_as_spec(spec_is_integer)]
    pub fn is_integer(&self) -> (r: bool)
        ensures
            r == self.spec_is_integer(),
    {
        matches!(self, PaletteFormat::IntegerDecimal | PaletteFormat::IntegerHexadecimal)
    }

    /// The GLSL element type of the palette array under this format.
    pub open spec fn spec_element_type(&self) -> Seq<char> {
        if self.spec_is_integer() {
            "int"@
        } else {
            "vec3"@
        }
    }

    pub fn element_type(&self) -> (r: &'static str)
        ensures
            r@ == self.spec_element_type(),
    {
        if self.is_integer() {
            "int"
        } else {
            "vec3"
        }
    }
}

impl Default for PaletteFormat {
    fn default() -> (r: Self)
        ensures
            r == PaletteFormat::RGBDecimal,
    {
        PaletteFormat::RGBDecimal
    }
}

/// buffer display format
#[derive(Clone, Copy, Debug, PartialEq, Eq, Structural)]
pub struct BufferFormat {
    /// Turn the picture upside down so that the index starts at the bottom left
    /// of the picture. default: `true`
    pub reverse_rows: bool,
    /// Invert the fold order of each chunk, placing a chunk's first index at
    /// bit offset 0. default: `true`
    pub reverse_each_chunk: bool,
    /// Even if the data can be compressed, the buffer will be displayed as an
    /// array without compression. default: `false`
    pub force_to_raw: bool,
}

impl Default for BufferFormat {
    fn default() -> (r: Self)
        ensures
            r == (BufferFormat { reverse_rows: true, reverse_each_chunk: true, force_to_raw: false }),
    {
        BufferFormat { reverse_rows: true, reverse_each_chunk: true, force_to_raw: false }
    }
}

/// Indicates the degree of inline.
#[derive(Clone, Copy, Debug, PartialEq, Eq, Structural)]
pub enum InlineLevel {
    /// Each value has a meaningful name. There is no magic number.
    NoInline,
    /// The width and height of the image are inlined, and each function is
    /// specialized to this exact image.
    InlineVariable,
    /// A single minified statement for a minimal-preamble shader host.
    /// Everything is inlined; there are no line breaks or spaces. Only the
    /// RGBFloat palette format is supported.
    Geekest,
}

impl Default for InlineLevel {
    fn default() -> (r: Self)
        ensures
            r == InlineLevel::NoInline,
    {
        InlineLevel::NoInline
    }
}

/// configuration of display
#[derive(Clone, Copy, Debug, PartialEq, Eq, Structural)]
pub struct DisplayConfig {
    /// buffer format
    pub buffer_format: BufferFormat,
    /// palette format
    pub palette_format: PaletteFormat,
    /// inline level
    pub inline_level: InlineLevel,
}

impl Default for DisplayConfig {
    fn default() -> (r: Self)
        ensures
            r == (DisplayConfig {
                buffer_format: BufferFormat {
                    reverse_rows: true,
                    reverse_each_chunk: true,
                    force_to_raw: false,
                },
                palette_format: PaletteFormat::RGBDecimal,
                inline_level: InlineLevel::NoInline,
            }),
    {
        DisplayConfig {
            buffer_format: Default::default(),
            palette_format: Default::default(),
            inline_level: Default::default(),
        }
    }
}

impl DisplayConfig {
    /// The configuration that rendering actually obeys: the Geekest inline
    /// level forces the RGBFloat palette format and compressed packing,
    /// regardless of the caller's request, since the target minimal-preamble
    /// environment only tolerates the float palette form.
    pub open spec fn spec_effective(self) -> DisplayConfig {
        if self.inline_level is Geekest {
            DisplayConfig {
                buffer_format: BufferFormat { force_to_raw: false, ..self.buffer_format },
                palette_format: PaletteFormat::RGBFloat,
                inline_level: InlineLevel::Geekest,
            }
        } else {
            self
        }
    }

    #[verifier::when_used_as_spec(spec_effective)]
    pub fn effective(self) -> (r: DisplayConfig)
        ensures
            r == self.spec_effective(),
    {
        if matches!(self.inline_level, InlineLevel::Geekest) {
            DisplayConfig {
                buffer_format: BufferFormat { force_to_raw: false, ..self.buffer_format },
                palette_format: PaletteFormat::RGBFloat,
                inline_level: InlineLevel::Geekest,
            }
        } else {
            self
        }
    }
}

/// Requesting the Geekest inline level overrides the palette format to
/// RGBFloat and clears `force_to_raw`, whatever the caller asked for; the
/// row- and chunk-order flags are kept.
pub proof fn lemma_geekest_override(cfg: DisplayConfig)
    requires
        cfg.inline_level is Geekest,
    ensures
        cfg.spec_effective().palette_format is RGBFloat,
        !cfg.spec_effective().buffer_format.force_to_raw,
        cfg.spec_effective().inline_level is Geekest,
        cfg.spec_effective().buffer_format.reverse_rows == cfg.buffer_format.reverse_rows,
        cfg.spec_effective().buffer_format.reverse_each_chunk == cfg.buffer_format.reverse_each_chunk,
{
}

/// What a pixel art decoded from an image may fail with.
#[derive(Debug)]
pub enum Error {
    /// The upstream image-container decode failed; holds the decoder's message
    /// verbatim.
    ImageError(String),
    /// A caller-side palette size policy was exceeded. The decoder itself
    /// never constructs this: any palette size bound is a caller policy.
    PaletteLengthOver16,
    /// The container is recognized but is not one of the supported raster
    /// formats.
    UnsupportedImageFormat,
}

impl Error {
    /// A human-readable message for this error: the decoder's own words for
    /// a decode failure, a fixed sentence for the other kinds.
    pub fn message(&self) -> (r: String)
        ensures
            self matches Error::ImageError(m) ==> r@ == m@,
            self is PaletteLengthOver16 ==> r@ == "The length of palettes is longer than 16."@,
            self is UnsupportedImageFormat ==> r@
                == "Supported image format is PNG, BMP, and GIF."@,
    {
        match self {
            Error::ImageError(m) => m.clone(),
            Error::PaletteLengthOver16 => "The length of palettes is longer than 16.".to_owned(),
            Error::UnsupportedImageFormat => "Supported image format is PNG, BMP, and GIF.".to_owned(),
        }
    }
}

} // verus!
