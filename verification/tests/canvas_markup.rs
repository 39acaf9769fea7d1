use redrob::canvas::document::{BlendMode, Pixel};
use redrob::canvas::error::{CoreError, FormatError};
use redrob::canvas::ora::{
    blend_name, parse_blend, place_layer, safe_path, stack_xml_guard, xml_escape, MAX_XML_BYTES,
};
use redrob::canvas::svg;

const MODES: [BlendMode; 5] = [
    BlendMode::Normal,
    BlendMode::Multiply,
    BlendMode::Screen,
    BlendMode::Overlay,
    BlendMode::Add,
];

#[test]
fn ora_blend_names_round_trip_and_default_to_source_over() {
    for mode in MODES {
        let name = blend_name(mode).to_owned();
        assert_eq!(parse_blend(Some(&name)).unwrap(), mode);
    }
    assert_eq!(blend_name(BlendMode::Add), "svg:plus");
    assert_eq!(blend_name(BlendMode::Normal), "svg:src-over");
    assert_eq!(parse_blend(None).unwrap(), BlendMode::Normal);
    match parse_blend(Some(&"svg:darken".to_owned())) {
        Err(CoreError::Format(FormatError::UnsupportedFeature(message))) => {
            assert_eq!(message, "unknown ORA composite-op")
        }
        other => panic!("unexpected {other:?}"),
    }
}

#[test]
fn svg_blend_names_round_trip_and_reject_unknown_modes() {
    for mode in MODES {
        let name = svg::blend(mode).to_owned();
        assert_eq!(svg::parse_blend(Some(name)).unwrap(), mode);
    }
    assert_eq!(svg::blend(BlendMode::Add), "plus");
    assert_eq!(svg::parse_blend(None).unwrap(), BlendMode::Normal);
    assert!(svg::parse_blend(Some("Multiply".to_owned())).is_err());
}

#[test]
fn markup_escaping_replaces_the_five_special_characters() {
    assert_eq!(
        xml_escape(r#"a & b < c > "d" 'e'"#),
        "a &amp; b &lt; c &gt; &quot;d&quot; &apos;e&apos;"
    );
    assert_eq!(xml_escape("plain ✓ text"), "plain ✓ text");
    assert_eq!(svg::escape("<&>"), "&lt;&amp;&gt;");
    assert_eq!(xml_escape(""), "");
}

#[test]
fn svg_colors_are_upper_case_rgba_hex() {
    assert_eq!(svg::color(Pixel::rgba(0, 0, 0, 0)), "#00000000");
    assert_eq!(svg::color(Pixel::rgba(255, 16, 171, 9)), "#FF10AB09");
}

#[test]
fn layers_are_placed_at_offsets_and_clipped() {
    let source: Vec<u8> = (1..=16).collect();
    let placed = place_layer(&source, 2, 2, 3, 2, 1, 1);
    let mut expected = vec![0u8; 3 * 2 * 4];
    expected[16..20].copy_from_slice(&source[0..4]);
    expected[20..24].copy_from_slice(&source[4..8]);
    assert_eq!(placed, expected);

    let shifted = place_layer(&source, 2, 2, 2, 2, -1, 0);
    let mut expected = vec![0u8; 16];
    expected[0..4].copy_from_slice(&source[4..8]);
    expected[8..12].copy_from_slice(&source[12..16]);
    assert_eq!(shifted, expected);

    assert_eq!(svg::place_png(&source, 2, 2, 2, 2, 5, 5), vec![0u8; 16]);
    assert_eq!(svg::place_png(&source, 2, 2, 2, 2, 0, 0), source);
}

#[test]
fn archive_paths_reject_traversal_and_absolute_names() {
    assert!(safe_path(b"data/layer0.png"));
    assert!(safe_path(b"a/b/c.png"));
    assert!(!safe_path(b"../evil.png"));
    assert!(!safe_path(b"data/../../evil.png"));
    assert!(!safe_path(b"/abs.png"));
    assert!(!safe_path(b"data\\evil.png"));
    assert!(!safe_path(b""));
}

#[test]
fn stack_xml_guard_limits_bytes_and_rejects_dtds_in_any_case() {
    let stack = b"<image w=\"1\" h=\"1\"><stack><layer src=\"data/a.png\"/></stack></image>";
    assert_eq!(stack_xml_guard(stack), Ok(()));
    for bad in [
        &b"<!DOCTYPE image><image/>"[..],
        &b"<!DocType image><image/>"[..],
        &b"<image><!ENTITY x \"y\"></image>"[..],
        &b"<!entity"[..],
    ] {
        assert_eq!(
            stack_xml_guard(bad),
            Err(FormatError::UnsupportedFeature("ORA DTD/entity content"))
        );
    }
    assert_eq!(stack_xml_guard(b"<!docum"), Ok(()));
    let exact = vec![b' '; MAX_XML_BYTES];
    assert_eq!(stack_xml_guard(&exact), Ok(()));
    let over = vec![b' '; MAX_XML_BYTES + 1];
    assert_eq!(
        stack_xml_guard(&over),
        Err(FormatError::LimitExceeded("ORA XML bytes"))
    );
}

fn color_error(value: &str) -> FormatError {
    match svg::parse_color(value) {
        Err(CoreError::Format(error)) => error,
        other => panic!("unexpected {other:?}"),
    }
}

#[test]
fn svg_colors_parse_short_and_long_hex_forms() {
    assert_eq!(svg::parse_color("none").unwrap(), None);
    assert_eq!(
        svg::parse_color("#abc").unwrap(),
        Some(Pixel::rgba(0xAA, 0xBB, 0xCC, 255))
    );
    assert_eq!(
        svg::parse_color("#aBcD").unwrap(),
        Some(Pixel::rgba(0xAA, 0xBB, 0xCC, 0xDD))
    );
    assert_eq!(
        svg::parse_color("#102030").unwrap(),
        Some(Pixel::rgba(0x10, 0x20, 0x30, 255))
    );
    assert_eq!(
        svg::parse_color("#FF10AB09").unwrap(),
        Some(Pixel::rgba(255, 16, 171, 9))
    );
    // A channel may carry a leading plus sign, as integer parsing allows.
    assert_eq!(
        svg::parse_color("#+F+F+F").unwrap(),
        Some(Pixel::rgba(15, 15, 15, 255))
    );
    let pixel = Pixel::rgba(1, 2, 254, 128);
    assert_eq!(svg::parse_color(&svg::color(pixel)).unwrap(), Some(pixel));
}

#[test]
fn svg_colors_reject_names_bad_digits_and_lengths() {
    assert_eq!(
        color_error("red"),
        FormatError::UnsupportedFeature("only literal hexadecimal SVG colors are supported")
    );
    assert_eq!(
        color_error(""),
        FormatError::UnsupportedFeature("only literal hexadecimal SVG colors are supported")
    );
    assert_eq!(color_error("#ggg"), FormatError::Malformed("invalid SVG color"));
    assert_eq!(color_error("#+++"), FormatError::Malformed("invalid SVG color"));
    assert_eq!(color_error("#-1-1-1"), FormatError::Malformed("invalid SVG color"));
    assert_eq!(color_error("#12345"), FormatError::Malformed("invalid SVG color length"));
    assert_eq!(color_error("#"), FormatError::Malformed("invalid SVG color length"));
    assert_eq!(color_error("#\u{e9}abcd"), FormatError::Malformed("invalid SVG color"));
}
