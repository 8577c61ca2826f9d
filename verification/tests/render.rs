use dot2shader::config::{BufferFormat, DisplayConfig, Error, InlineLevel, PaletteFormat};
use dot2shader::pixel_art::PixelArt;

fn two_by_two() -> PixelArt {
    let raw: Vec<u8> = vec![
        255, 0, 0, 255, 255, 0, 0, 255, // red, red
        0, 255, 0, 255, 0, 0, 255, 255, // green, blue
    ];
    PixelArt::from_rgba(2, 2, &raw)
}

/// A 2x2, 24-bit BMP holding red, red / green, blue (top to bottom).
fn two_by_two_bmp() -> Vec<u8> {
    let mut bytes: Vec<u8> = Vec::new();
    // File header: magic, file size, reserved, pixel data offset.
    bytes.extend_from_slice(&[0x42, 0x4d]);
    bytes.extend_from_slice(&70u32.to_le_bytes());
    bytes.extend_from_slice(&[0, 0, 0, 0]);
    bytes.extend_from_slice(&54u32.to_le_bytes());
    // Info header: size, width, height, planes, bits per pixel, no
    // compression, image size, resolution, palette counts.
    bytes.extend_from_slice(&40u32.to_le_bytes());
    bytes.extend_from_slice(&2i32.to_le_bytes());
    bytes.extend_from_slice(&2i32.to_le_bytes());
    bytes.extend_from_slice(&1u16.to_le_bytes());
    bytes.extend_from_slice(&24u16.to_le_bytes());
    bytes.extend_from_slice(&0u32.to_le_bytes());
    bytes.extend_from_slice(&16u32.to_le_bytes());
    bytes.extend_from_slice(&2835u32.to_le_bytes());
    bytes.extend_from_slice(&2835u32.to_le_bytes());
    bytes.extend_from_slice(&0u32.to_le_bytes());
    bytes.extend_from_slice(&0u32.to_le_bytes());
    // Pixel rows, bottom-up, BGR, padded to four bytes per row.
    bytes.extend_from_slice(&[0, 255, 0, 255, 0, 0, 0, 0]); // green, blue
    bytes.extend_from_slice(&[0, 0, 255, 0, 0, 255, 0, 0]); // red, red
    bytes
}

#[test]
fn decode_bmp_end_to_end() {
    let art = PixelArt::from_image(&two_by_two_bmp()).unwrap();
    assert_eq!(art.palette(), &vec![0xff0000u32, 0x00ff00, 0x0000ff]);
    assert_eq!(art.buffer(), &vec![0u32, 0, 1, 2]);
    let text = art.display(DisplayConfig::default()).unwrap().render();
    assert_eq!(text, two_by_two().display(DisplayConfig::default()).unwrap().render());
}

#[test]
fn decode_is_deterministic() {
    let bytes = two_by_two_bmp();
    let a = PixelArt::from_image(&bytes).unwrap();
    let b = PixelArt::from_image(&bytes).unwrap();
    assert_eq!(a.palette(), b.palette());
    assert_eq!(a.buffer(), b.buffer());
}

#[test]
fn unsupported_container_is_rejected() {
    // A JPEG signature is recognized but not accepted.
    let jpeg: Vec<u8> = vec![0xff, 0xd8, 0xff, 0xe0, 0x00, 0x10, 0x4a, 0x46, 0x49, 0x46, 0x00];
    assert!(matches!(PixelArt::from_image(&jpeg), Err(Error::UnsupportedImageFormat)));
}

#[test]
fn unrecognized_bytes_are_a_decode_error() {
    let garbage: Vec<u8> = vec![0u8; 16];
    assert!(matches!(PixelArt::from_image(&garbage), Err(Error::ImageError(_))));
}

#[test]
fn truncated_container_is_a_decode_error() {
    // A PNG signature with nothing behind it.
    let truncated: Vec<u8> = vec![0x89, 0x50, 0x4e, 0x47, 0x0d, 0x0a, 0x1a, 0x0a];
    assert!(matches!(PixelArt::from_image(&truncated), Err(Error::ImageError(_))));
}

#[test]
fn default_config_values() {
    let config = DisplayConfig::default();
    assert!(config.buffer_format.reverse_rows);
    assert!(config.buffer_format.reverse_each_chunk);
    assert!(!config.buffer_format.force_to_raw);
    assert_eq!(config.palette_format, PaletteFormat::RGBDecimal);
    assert_eq!(config.inline_level, InlineLevel::NoInline);
}

#[test]
fn render_default_config_golden() {
    let art = two_by_two();
    let text = art.display(DisplayConfig::default()).unwrap().render();
    let expected = "const vec3 PALETTE[] = vec3[](\n    vec3(255, 0, 0) / 255.0,\n    vec3(0, 255, 0) / 255.0,\n    vec3(0, 0, 255) / 255.0\n);\n\nconst int WIDTH = 2, HEIGHT = 2, CHUNKS_IN_U32 = 16;\nconst int BUFFER[] = int[](\n    9\n);\n\nvec3 getColor(in ivec2 u) {\n    int idx = u.y * WIDTH + u.x;\n    u = ivec2(idx % CHUNKS_IN_U32, idx / CHUNKS_IN_U32);\n    int bitShift = 32 / CHUNKS_IN_U32;\n    return PALETTE[BUFFER[u.y] >> u.x * 32 / CHUNKS_IN_U32 & (1 << bitShift) - 1];\n}\n\nvoid mainImage(out vec4 O, in vec2 U) {\n    vec2 r = iResolution.xy;\n    ivec2 u = ivec2(floor((U - 0.5 * r) / r.y * float(HEIGHT) + vec2(WIDTH, HEIGHT) / 2.0));\n    O.xyz = u == abs(u) && u.x < WIDTH && u.y < HEIGHT ? getColor(u) : vec3(0.5);\n}\n";
    assert_eq!(text, expected);
}

#[test]
fn render_inline_variable_golden() {
    let art = two_by_two();
    let config = DisplayConfig {
        buffer_format: BufferFormat::default(),
        palette_format: PaletteFormat::IntegerHexadecimal,
        inline_level: InlineLevel::InlineVariable,
    };
    let text = art.display(config).unwrap().render();
    let expected = "const int PALETTE[] = int[](\n    0xff0000,\n    0xff00,\n    0xff\n);\n\nconst int BUFFER[] = int[](\n    9\n);\n\nvec3 int2rgb(int color) {\n    return vec3((color & 0xff0000) >> 16, (color & 0xff00) >> 8, color & 0xff) / 255.0;\n}\n\nint getColor(in ivec2 u) {\n    int idx = u.y * 2 + u.x;\n    u = ivec2(idx % 16, idx / 16);\n    return PALETTE[BUFFER[u.y] >> u.x * 2 & 3];\n}\n\nvoid mainImage(out vec4 O, in vec2 U) {\n    vec2 r = iResolution.xy;\n    ivec2 u = ivec2(floor((U - 0.5 * r) / r.y * 2.0 + vec2(1.0, 1.0)));\n    O.xyz = u == abs(u) && u.x < 2 && u.y < 2 ? int2rgb(getColor(u)) : vec3(0.5);\n}\n";
    assert_eq!(text, expected);
}

#[test]
fn render_geekest_golden() {
    let art = two_by_two();
    let config = DisplayConfig {
        buffer_format: BufferFormat::default(),
        palette_format: PaletteFormat::RGBFloat,
        inline_level: InlineLevel::Geekest,
    };
    let text = art.display(config).unwrap().render();
    let expected = "ivec2 u=ivec2(FC.xy/r*2.);int i=u.y*2+u.x;o.xyz=vec3[](vec3(1,0,0),vec3(0,1,0),vec3(0,0,1))[int[](9)[i/16]>>i*2&3];";
    assert_eq!(text, expected);
}

#[test]
fn geekest_overrides_palette_format_and_raw() {
    // Requesting Geekest with an integer palette format and a forced raw
    // buffer must render as RGBFloat with compressed packing anyway.
    let art = two_by_two();
    let requested = DisplayConfig {
        buffer_format: BufferFormat {
            reverse_rows: true,
            reverse_each_chunk: true,
            force_to_raw: true,
        },
        palette_format: PaletteFormat::IntegerHexadecimal,
        inline_level: InlineLevel::Geekest,
    };
    let overridden = DisplayConfig {
        buffer_format: BufferFormat {
            reverse_rows: true,
            reverse_each_chunk: true,
            force_to_raw: false,
        },
        palette_format: PaletteFormat::RGBFloat,
        inline_level: InlineLevel::Geekest,
    };
    let requested_text = art.display(requested).unwrap().render();
    let overridden_text = art.display(overridden).unwrap().render();
    assert_eq!(requested_text, overridden_text);
    assert!(requested_text.contains("vec3(1,0,0)"));
    assert!(!requested_text.contains("0x"));
}

#[test]
fn error_messages() {
    assert_eq!(
        Error::UnsupportedImageFormat.message(),
        "Supported image format is PNG, BMP, and GIF."
    );
    assert_eq!(
        Error::PaletteLengthOver16.message(),
        "The length of palettes is longer than 16."
    );
}
