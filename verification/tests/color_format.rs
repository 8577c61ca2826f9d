use dot2shader::color::ColorDisplay;
use dot2shader::config::PaletteFormat;

#[test]
fn palette_format() {
    let mut display = ColorDisplay {
        format: PaletteFormat::IntegerDecimal,
        space_delim: " ",
        color: 11596387,
    };
    assert_eq!("11596387", &display.render());
    display.format = PaletteFormat::IntegerHexadecimal;
    assert_eq!("0xb0f263", &display.render());
    display.format = PaletteFormat::RGBDecimal;
    assert_eq!("vec3(176, 242, 99) / 255.0", &display.render());
    display.format = PaletteFormat::RGBHexadecimal;
    assert_eq!("vec3(0xb0, 0xf2, 0x63) / 255.0", &display.render());
    display.format = PaletteFormat::RGBFloat;
    assert_eq!("vec3(0.690, 0.949, 0.388)", &display.render());
}

#[test]
fn pallet_format() {
    let mut display = ColorDisplay {
        format: PaletteFormat::IntegerDecimal,
        space_delim: " ",
        color: 11596387,
    };
    assert_eq!("11596387", &display.render());
    display.format = PaletteFormat::IntegerHexadecimal;
    assert_eq!("0xb0f263", &display.render());
    display.format = PaletteFormat::RGBDecimal;
    assert_eq!("vec3(176, 242, 99) / 255.0", &display.render());
    display.format = PaletteFormat::RGBHexadecimal;
    assert_eq!("vec3(0xb0, 0xf2, 0x63) / 255.0", &display.render());
    display.format = PaletteFormat::RGBFloat;
    assert_eq!("vec3(0.690, 0.949, 0.388)", &display.render());
}

#[test]
fn compact_color_format() {
    let mut display = ColorDisplay {
        format: PaletteFormat::RGBFloat,
        space_delim: "",
        color: 11596387,
    };
    assert_eq!("vec3(.69,.949,.388)", &display.render());
    display.format = PaletteFormat::RGBDecimal;
    assert_eq!("vec3(176,242,99)/255.", &display.render());
    display.format = PaletteFormat::RGBHexadecimal;
    assert_eq!("vec3(0xb0,0xf2,0x63)/255.", &display.render());
    display.format = PaletteFormat::IntegerDecimal;
    assert_eq!("11596387", &display.render());
}

#[test]
fn float_channel_edge_values() {
    // A gray color whose three rounded channels coincide collapses to the
    // single-argument form.
    let display = ColorDisplay {
        format: PaletteFormat::RGBFloat,
        space_delim: " ",
        color: 0x808080,
    };
    assert_eq!("vec3(0.502)", &display.render());
    let compact = ColorDisplay {
        format: PaletteFormat::RGBFloat,
        space_delim: "",
        color: 0xffffff,
    };
    assert_eq!("vec3(1)", &compact.render());
    let black = ColorDisplay {
        format: PaletteFormat::RGBFloat,
        space_delim: "",
        color: 0,
    };
    assert_eq!("vec3(0)", &black.render());
}

#[test]
fn integer_format_of_zero() {
    let display = ColorDisplay {
        format: PaletteFormat::IntegerDecimal,
        space_delim: " ",
        color: 0,
    };
    assert_eq!("0", &display.render());
    let hex = ColorDisplay {
        format: PaletteFormat::IntegerHexadecimal,
        space_delim: " ",
        color: 0,
    };
    assert_eq!("0x0", &hex.render());
}
