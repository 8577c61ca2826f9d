use dot2shader::config::{BufferFormat, DisplayConfig, InlineLevel, PaletteFormat};
use dot2shader::pack::{pack_buffer, reorder_rows, unpack_buffer};
use dot2shader::pixel_art::PixelArt;

fn art_with_palette_len(len: usize) -> PixelArt {
    PixelArt { palette: vec![0u32; len], buffer: vec![0u32], width: 1, height: 1 }
}

#[test]
fn bit_width_boundaries() {
    // A single-color palette still needs one bit, never zero.
    assert_eq!(art_with_palette_len(1).necessary_bit_shift(), 1);
    assert_eq!(art_with_palette_len(2).necessary_bit_shift(), 1);
    assert_eq!(art_with_palette_len(3).necessary_bit_shift(), 2);
    assert_eq!(art_with_palette_len(4).necessary_bit_shift(), 2);
    assert_eq!(art_with_palette_len(16).necessary_bit_shift(), 4);
    assert_eq!(art_with_palette_len(17).necessary_bit_shift(), 8);
    assert_eq!(art_with_palette_len(256).necessary_bit_shift(), 8);
    assert_eq!(art_with_palette_len(257).necessary_bit_shift(), 16);
    assert_eq!(art_with_palette_len(65535).necessary_bit_shift(), 16);
}

#[test]
fn compressibility_boundary() {
    assert!(art_with_palette_len(65535).is_compressible());
    assert!(!art_with_palette_len(65536).is_compressible());
}

#[test]
fn pack_unpack_inverse() {
    // For every planner-reachable palette size, both chunk-order policies
    // must round-trip an index sequence exactly.
    for &palette_len in &[1usize, 2, 3, 4, 16, 17, 256, 257, 65535] {
        let bits = art_with_palette_len(palette_len).necessary_bit_shift();
        let buffer: Vec<u32> = (0..97u32).map(|i| i % (palette_len as u32)).collect();
        for &reverse_each_chunk in &[true, false] {
            let words = pack_buffer(&buffer, bits, reverse_each_chunk);
            let back = unpack_buffer(&words, bits, reverse_each_chunk, buffer.len());
            assert_eq!(back, buffer, "bits {} reverse {}", bits, reverse_each_chunk);
        }
    }
}

#[test]
fn packed_words_for_two_by_two() {
    // The 2x2 scenario: palette [red, green, blue], buffer [0, 0, 1, 2],
    // bits = 2, chunk size = 16, twelve zero-padding entries.
    let raw: Vec<u8> = vec![
        255, 0, 0, 255, 255, 0, 0, 255, // top row: red, red
        0, 255, 0, 255, 0, 0, 255, 255, // bottom row: green, blue
    ];
    let art = PixelArt::from_rgba(2, 2, &raw);
    assert_eq!(art.palette(), &vec![0xff0000u32, 0x00ff00, 0x0000ff]);
    assert_eq!(art.buffer(), &vec![0u32, 0, 1, 2]);
    let config = DisplayConfig::default();
    let display = art.display(config).unwrap();
    let (words, intable) = display.compressed_buffer();
    // Rows reversed: [1, 2, 0, 0]; first logical index at bit 0:
    // 1 + (2 << 2) = 9.
    assert_eq!(words, vec![9u32]);
    assert!(intable);
    let mut config2 = config;
    config2.buffer_format.reverse_each_chunk = false;
    let display2 = art.display(config2).unwrap();
    let (words2, intable2) = display2.compressed_buffer();
    // Forward fold: first logical index at the highest used offset:
    // (1 << 30) + (2 << 28) = 0x60000000.
    assert_eq!(words2, vec![0x60000000u32]);
    assert!(intable2);
}

#[test]
fn raw_buffer_when_forced() {
    let raw: Vec<u8> = vec![
        255, 0, 0, 255, 255, 0, 0, 255, 0, 255, 0, 255, 0, 0, 255, 255,
    ];
    let art = PixelArt::from_rgba(2, 2, &raw);
    let config = DisplayConfig {
        buffer_format: BufferFormat {
            reverse_rows: false,
            reverse_each_chunk: true,
            force_to_raw: true,
        },
        palette_format: PaletteFormat::RGBDecimal,
        inline_level: InlineLevel::NoInline,
    };
    let display = art.display(config).unwrap();
    let (words, intable) = display.compressed_buffer();
    assert_eq!(words, vec![0u32, 0, 1, 2]);
    assert!(intable);
}

#[test]
fn row_reorder_flips_rows() {
    let buffer: Vec<u32> = vec![0, 1, 2, 3, 4, 5];
    let flipped = reorder_rows(&buffer, 2, 3, true);
    assert_eq!(flipped, vec![4, 5, 2, 3, 0, 1]);
    let kept = reorder_rows(&buffer, 2, 3, false);
    assert_eq!(kept, buffer);
}

#[test]
fn alpha_is_dropped() {
    // Two pixels that differ only in alpha share one palette entry.
    let raw: Vec<u8> = vec![10, 20, 30, 255, 10, 20, 30, 0];
    let art = PixelArt::from_rgba(2, 1, &raw);
    assert_eq!(art.palette(), &vec![(10u32 << 16) | (20 << 8) | 30]);
    assert_eq!(art.buffer(), &vec![0u32, 0]);
}

#[test]
fn lookup_shortcut_when_one_row_fills_one_word() {
    // Sixteen pixels of three colors pack sixteen 2-bit indices into one
    // word per row; with rows packed bottom-up the lookup may read
    // `BUFFER[u.y]` directly, without flattening the coordinate.
    let raw: Vec<u8> = (0..16u8).flat_map(|p| vec![p % 3, 0, 0, 255]).collect();
    let art = dot2shader::pixel_art::PixelArt::from_rgba(16, 1, &raw);
    assert_eq!(art.necessary_bit_shift(), 2);
    let config = DisplayConfig {
        buffer_format: BufferFormat {
            reverse_rows: true,
            reverse_each_chunk: true,
            force_to_raw: false,
        },
        palette_format: PaletteFormat::RGBDecimal,
        inline_level: InlineLevel::InlineVariable,
    };
    let display = art.display(config).unwrap();
    assert_eq!(
        display.fmt_get_color(true),
        "vec3 getColor(in ivec2 u) {\n    return PALETTE[BUFFER[u.y] >> u.x * 2 & 3];\n}\n\n"
    );
    // Without the bottom-up row order, the y-flipping index line and the
    // coordinate remapping must stay.
    let mut flipped = config;
    flipped.buffer_format.reverse_rows = false;
    let display2 = art.display(flipped).unwrap();
    assert_eq!(
        display2.fmt_get_color(true),
        "vec3 getColor(in ivec2 u) {\n    int idx = (0 - u.y) * 16 + u.x;\n    u = ivec2(idx % 16, idx / 16);\n    return PALETTE[BUFFER[u.y] >> u.x * 2 & 3];\n}\n\n"
    );
}

#[test]
fn all_configurations_reconstruct_the_pixels() {
    // Evaluate the emitted lookup arithmetic for every pixel coordinate
    // under every buffer-format policy: the decoded color must always be
    // the color the pixel art holds there.
    let width = 5u32;
    let height = 3u32;
    let raw: Vec<u8> = (0..width * height)
        .flat_map(|p| vec![(p % 4) as u8 * 60, (p % 3) as u8 * 80, (p % 2) as u8 * 200, 255])
        .collect();
    let art = dot2shader::pixel_art::PixelArt::from_rgba(width, height, &raw);
    let bits = art.necessary_bit_shift();
    let chunk = 32 / bits;
    for &reverse_rows in &[true, false] {
        for &reverse_each_chunk in &[true, false] {
            for &force_to_raw in &[true, false] {
                let config = DisplayConfig {
                    buffer_format: BufferFormat { reverse_rows, reverse_each_chunk, force_to_raw },
                    palette_format: PaletteFormat::RGBDecimal,
                    inline_level: InlineLevel::InlineVariable,
                };
                let display = art.display(config).unwrap();
                let (words, _) = display.compressed_buffer();
                for yup in 0..height as usize {
                    for x in 0..width as usize {
                        let idx = if reverse_rows {
                            yup * width as usize + x
                        } else {
                            (height as usize - 1 - yup) * width as usize + x
                        };
                        let value = if force_to_raw {
                            words[idx]
                        } else {
                            // The shift/mask formula the emitted text uses.
                            let j = idx % chunk;
                            let shift = if reverse_each_chunk { j * bits } else { (chunk - 1 - j) * bits };
                            (words[idx / chunk] >> shift) & ((1u32 << bits) - 1)
                        };
                        let expected =
                            art.buffer()[(height as usize - 1 - yup) * width as usize + x];
                        assert_eq!(value, expected, "config {:?} at ({}, {})", config, x, yup);
                        let _color = art.palette()[value as usize];
                    }
                }
            }
        }
    }
}

#[test]
fn swap_palette_index_rewrites_buffer() {
    let raw: Vec<u8> = vec![
        255, 0, 0, 255, 255, 0, 0, 255, 0, 255, 0, 255, 0, 0, 255, 255,
    ];
    let mut art = PixelArt::from_rgba(2, 2, &raw);
    art.swap_palette_index(0, 2);
    assert_eq!(art.palette(), &vec![0x0000ffu32, 0x00ff00, 0xff0000]);
    assert_eq!(art.buffer(), &vec![2u32, 2, 1, 0]);
}
