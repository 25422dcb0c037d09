use embedded_text::font_ext::{FontExt, LineMeasurement};

/// A font of 6 pixel wide glyphs with no spacing between them.
struct Font6x8;

impl FontExt for Font6x8 {
    fn char_width(_c: char) -> u32 {
        6
    }

    fn total_char_width(c: char) -> u32 {
        Self::char_width(c)
    }
}

/// A font whose glyphs are as wide as their code in tenths, to tell characters apart.
struct CodeWidthFont;

impl FontExt for CodeWidthFont {
    fn char_width(c: char) -> u32 {
        c as u32 / 10
    }

    fn total_char_width(c: char) -> u32 {
        Self::char_width(c)
    }
}

#[test]
fn test_max_fitting_empty() {
    assert_eq!(Font6x8::measure_line("", 54), LineMeasurement::new(0, true))
}

#[test]
fn test_max_fitting_exact() {
    let measurement = Font6x8::measure_line("somereall", 54);
    assert_eq!(measurement, LineMeasurement::new(54, true));
}

#[test]
fn test_max_fitting_long_exact() {
    let measurement = Font6x8::measure_line("somereallylongword", 54);
    assert_eq!(measurement, LineMeasurement::new(54, false));
}

#[test]
fn test_max_fitting_long() {
    let measurement = Font6x8::measure_line("somereallylongword", 55);
    assert_eq!(measurement, LineMeasurement::new(54, false));
}

#[test]
fn measure_line_stops_at_the_first_character_that_does_not_fit() {
    // 'd' is 10 wide, 'x' is 12 wide, 'A' is 6 wide
    let measurement = CodeWidthFont::measure_line("ddxA", 25);
    assert_eq!(measurement, LineMeasurement::new(20, false));
}

#[test]
fn str_width_adds_character_widths() {
    assert_eq!(Font6x8::str_width(""), 0);
    assert_eq!(Font6x8::str_width("a\u{A0}😅"), 18);
    assert_eq!(CodeWidthFont::str_width("dxA"), 28);
}

#[test]
fn empty_measurement() {
    assert_eq!(LineMeasurement::empty(), LineMeasurement::new(0, true));
    assert_eq!(LineMeasurement::empty().width, 0);
    assert!(LineMeasurement::empty().fits_line);
}
