use font8x8::UnicodeFonts;
use redrob::canvas::error::CoreError;
use redrob::canvas::glyphs::{
    preflight_text, text_coverage, text_layout, validate_text_fields, validate_text_glyphs,
    EMBEDDED_FONT_ID,
};

#[test]
fn text_glyphs_must_be_printable_ascii_spaces_or_line_feeds() {
    assert!(validate_text_glyphs("Hi there!\n~ok~").is_ok());
    assert!(validate_text_glyphs("").is_ok());
    assert!(matches!(
        validate_text_glyphs("caf\u{e9}"),
        Err(CoreError::UnsupportedTextGlyph('\u{e9}'))
    ));
    assert!(matches!(
        validate_text_glyphs("a\tb\u{e9}"),
        Err(CoreError::UnsupportedTextGlyph('\t'))
    ));
    assert!(matches!(
        validate_text_glyphs("x\r\n"),
        Err(CoreError::UnsupportedTextGlyph('\r'))
    ));
}

#[test]
fn text_fields_are_bounded_and_name_the_embedded_font() {
    let font = EMBEDDED_FONT_ID.to_owned();
    let family = "Mono".to_owned();
    assert!(validate_text_fields(&"hello".to_owned(), &family, &font).is_ok());
    let long_text = "x".repeat(256 * 1024 + 1);
    assert!(matches!(
        validate_text_fields(&long_text, &family, &font),
        Err(CoreError::DocumentLimitExceeded("text content bytes"))
    ));
    assert!(validate_text_fields(&"x".repeat(256 * 1024), &family, &font).is_ok());
    assert!(matches!(
        validate_text_fields(&"a".to_owned(), &"f".repeat(257), &font),
        Err(CoreError::DocumentLimitExceeded("font family bytes"))
    ));
    assert!(matches!(
        validate_text_fields(&"a".to_owned(), &family, &"i".repeat(129)),
        Err(CoreError::DocumentLimitExceeded("font id bytes"))
    ));
    assert!(matches!(
        validate_text_fields(&"a".to_owned(), &family, &"other-font".to_owned()),
        Err(CoreError::InvalidSemanticStyle)
    ));
    assert!(matches!(
        validate_text_fields(&"a".to_owned(), &" \t".to_owned(), &font),
        Err(CoreError::InvalidSemanticStyle)
    ));
}

#[test]
fn text_layout_counts_the_longest_line_and_the_lines() {
    assert_eq!(text_layout(""), (0, 1));
    assert_eq!(text_layout("ab\ncde\n"), (3, 3));
    assert_eq!(text_layout("\n\n"), (0, 3));
    assert_eq!(text_layout("abcd\ne"), (4, 2));
}

#[test]
fn text_work_is_bounded_by_the_touched_pixels() {
    let size = 4096 * 256;
    assert!(preflight_text("A", 0, 0, size, 2000, 2000).is_ok());
    assert!(matches!(
        preflight_text("A", 0, 0, size, 4096, 4096),
        Err(CoreError::SemanticWorkLimitExceeded)
    ));
    assert!(preflight_text("A", -size, 0, size, 4096, 4096).is_ok());
    assert!(preflight_text("hello", 10, 20, 256 * 12, 64, 64).is_ok());
}

#[test]
fn text_coverage_samples_the_embedded_glyphs() {
    let glyph = font8x8::BASIC_FONTS.get('A').unwrap();
    // One glyph cell per pixel: every sample of a pixel lands in the same cell.
    let coverage = text_coverage("A", 0, 0, 8 * 256, 10, 9);
    assert_eq!(coverage.len(), 90);
    for y in 0..9 {
        for x in 0..10 {
            let expected = if x < 8 && y < 8 && glyph[y] & (1 << x) != 0 {
                16
            } else {
                0
            };
            assert_eq!(coverage[y * 10 + x], expected, "pixel ({x}, {y})");
        }
    }
    // Shifted by one pixel to the right and down.
    let shifted = text_coverage("A", 256, 256, 8 * 256, 10, 9);
    for y in 0..8 {
        for x in 0..8 {
            assert_eq!(shifted[(y + 1) * 10 + x + 1], coverage[y * 10 + x]);
        }
    }
    // Off-canvas text covers nothing; spaces cover nothing.
    assert!(text_coverage("A", 64 * 256, 0, 8 * 256, 10, 9).iter().all(|c| *c == 0));
    assert!(text_coverage("  ", 0, 0, 8 * 256, 10, 9).iter().all(|c| *c == 0));
    // A second line starts one character height lower.
    let two = text_coverage("\nA", 0, 0, 4 * 256, 4, 8);
    assert!(two[..16].iter().all(|c| *c == 0));
    assert!(two[16..].iter().any(|c| *c > 0));
}
