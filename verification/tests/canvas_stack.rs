use redrob::canvas::document::BlendMode;
use redrob::canvas::error::{CoreError, FormatError};
use redrob::canvas::ora::{stack_xml_guard, MAX_XML_BYTES};
use redrob::canvas::stack::{
    parse_i32_text, parse_stack_events, parse_u32_text, NumberReading, XmlAttribute, XmlEvent,
};

fn attr(name: &str, value: &str) -> XmlAttribute {
    let number = match value {
        "1" | "1.0" => NumberReading::One,
        "0.5" => NumberReading::Fraction,
        "2" => NumberReading::OutOfRange,
        _ => NumberReading::Invalid,
    };
    XmlAttribute { name: name.to_string(), value: value.to_string(), number }
}

fn start(name: &str, attributes: Vec<XmlAttribute>) -> XmlEvent {
    XmlEvent::Start { name: name.to_string(), attributes }
}

fn empty(name: &str, attributes: Vec<XmlAttribute>) -> XmlEvent {
    XmlEvent::Empty { name: name.to_string(), attributes }
}

fn end(name: &str) -> XmlEvent {
    XmlEvent::End { name: name.to_string() }
}

fn document(layer: XmlEvent) -> Vec<XmlEvent> {
    vec![
        XmlEvent::Declaration,
        start("image", vec![attr("w", "2"), attr("h", "2"), attr("version", "0.0.5")]),
        start("stack", vec![]),
        layer,
        end("stack"),
        end("image"),
    ]
}

fn error(events: &[XmlEvent]) -> CoreError {
    match parse_stack_events(events) {
        Err(e) => e,
        Ok(_) => panic!("expected an error"),
    }
}

#[test]
fn stack_events_give_entries_in_drawing_order() {
    let events = vec![
        XmlEvent::Declaration,
        start("image", vec![attr("w", "+3"), attr("h", "2")]),
        XmlEvent::Text { blank: true },
        start("stack", vec![]),
        empty("layer", vec![attr("src", "data/a.png"), attr("name", "A")]),
        start("stack", vec![attr("name", "G"), attr("opacity", "0.5"), attr("visibility", "hidden")]),
        empty("layer", vec![attr("src", "data/b.png"), attr("x", "1"), attr("y", "-1"), attr("composite-op", "svg:multiply")]),
        end("stack"),
        end("stack"),
        end("image"),
    ];
    let image = parse_stack_events(&events).unwrap();
    assert_eq!((image.width, image.height), (3, 2));
    assert_eq!(image.root.name, "root");
    let names: Vec<&str> = image.entries.iter().map(|e| e.properties.name.as_str()).collect();
    assert_eq!(names, vec!["A", "Layer", "G"]);
    let depths: Vec<usize> = image.entries.iter().map(|e| e.depth).collect();
    assert_eq!(depths, vec![0, 1, 0]);
    let b = image.entries[1].layer.as_ref().unwrap();
    assert_eq!((b.src.as_str(), b.x, b.y), ("data/b.png", 1, -1));
    assert_eq!(image.entries[1].properties.blend, BlendMode::Multiply);
    assert!(image.entries[2].layer.is_none());
    assert!(!image.entries[2].properties.visible);
    assert_eq!(image.entries[2].properties.opacity.as_deref(), Some("0.5"));
}

#[test]
fn stack_events_refuse_bad_structure() {
    let ok = document(empty("layer", vec![attr("src", "a.png")]));
    assert!(parse_stack_events(&ok).is_ok());

    assert!(matches!(
        error(&document(empty("mask", vec![]))),
        CoreError::Format(FormatError::UnsupportedFeature("ORA masks on import"))
    ));
    assert!(matches!(
        error(&document(empty("layer", vec![attr("src", "a.png"), attr("src", "b.png")]))),
        CoreError::Format(FormatError::Malformed("duplicate ORA XML attribute"))
    ));
    assert!(matches!(
        error(&document(empty("layer", vec![attr("src", "../a.png")]))),
        CoreError::Format(FormatError::UnsupportedFeature("unknown or unsafe ORA layer attribute"))
    ));
    assert!(matches!(
        error(&document(empty("layer", vec![]))),
        CoreError::Format(FormatError::Malformed("missing ORA layer source"))
    ));
    assert!(matches!(
        error(&document(empty("layer", vec![attr("src", "a.png"), attr("opacity", "2")]))),
        CoreError::Format(FormatError::Malformed("invalid ORA opacity"))
    ));
    assert!(matches!(
        error(&document(empty("layer", vec![attr("src", "a.png"), attr("visibility", "gone")]))),
        CoreError::Format(FormatError::Malformed("invalid ORA visibility"))
    ));
    assert!(matches!(
        error(&document(XmlEvent::Text { blank: false })),
        CoreError::Format(FormatError::UnsupportedFeature("unknown ORA XML element"))
    ));

    let mut after = document(empty("layer", vec![attr("src", "a.png")]));
    after.push(XmlEvent::Other);
    assert!(matches!(
        error(&after),
        CoreError::Format(FormatError::Malformed("content after ORA image root"))
    ));
    let unclosed = vec![start("image", vec![attr("w", "1"), attr("h", "1")]), start("stack", vec![])];
    assert!(matches!(
        error(&unclosed),
        CoreError::Format(FormatError::Malformed("unclosed ORA image or stack"))
    ));
    let no_width = vec![start("image", vec![attr("h", "1")])];
    assert!(matches!(error(&no_width), CoreError::Format(FormatError::Malformed("missing ORA width"))));
    let zero = vec![start("image", vec![attr("w", "0"), attr("h", "1")])];
    assert!(matches!(error(&zero), CoreError::InvalidDimensions { width: 0, height: 1 }));
    let outside = vec![start("stack", vec![])];
    assert!(matches!(error(&outside), CoreError::Format(FormatError::Malformed("ORA stack outside image"))));
}

#[test]
fn integers_parse_as_rust_reads_them() {
    let t = |s: &str| s.to_string();
    assert_eq!(parse_u32_text(&t("42")), Some(42));
    assert_eq!(parse_u32_text(&t("+7")), Some(7));
    assert_eq!(parse_u32_text(&t("4294967295")), Some(u32::MAX));
    assert_eq!(parse_u32_text(&t("4294967296")), None);
    assert_eq!(parse_u32_text(&t("-1")), None);
    assert_eq!(parse_u32_text(&t("")), None);
    assert_eq!(parse_u32_text(&t("+")), None);
    assert_eq!(parse_u32_text(&t("1 ")), None);
    assert_eq!(parse_i32_text(&t("-2147483648")), Some(i32::MIN));
    assert_eq!(parse_i32_text(&t("2147483648")), None);
    assert_eq!(parse_i32_text(&t("-12")), Some(-12));
    assert_eq!(parse_i32_text(&t("-")), None);
    for s in ["0", "17", "+3", "-9", "2147483647", "x1", "", "99999999999"] {
        assert_eq!(parse_i32_text(&t(s)), s.parse::<i32>().ok());
        assert_eq!(parse_u32_text(&t(s)), s.parse::<u32>().ok());
    }
}

fn nested(root_name: Option<&str>, stacks: usize, extra: bool) -> Vec<XmlEvent> {
    let mut events = vec![start("image", vec![attr("w", "1"), attr("h", "1")])];
    events.push(start("stack", root_name.map(|n| vec![attr("name", n)]).unwrap_or_default()));
    for _ in 0..stacks {
        events.push(start("stack", vec![]));
    }
    if extra {
        events.push(start("stack", vec![]));
    }
    events.push(empty("layer", vec![attr("src", "data/a.png")]));
    if extra {
        events.push(end("stack"));
    }
    for _ in 0..stacks {
        events.push(end("stack"));
    }
    events.push(end("stack"));
    events.push(end("image"));
    events
}

#[test]
fn stack_parser_enforces_exact_hierarchy_and_xml_byte_limits() {
    let depth = 256;
    assert!(parse_stack_events(&nested(None, depth, false)).is_ok());
    assert!(matches!(
        error(&nested(None, depth, true)),
        CoreError::Format(FormatError::LimitExceeded("ORA hierarchy depth"))
    ));
    assert!(parse_stack_events(&nested(Some("materialized"), depth - 1, false)).is_ok());
    assert!(matches!(
        error(&nested(Some("materialized"), depth - 1, true)),
        CoreError::Format(FormatError::LimitExceeded("ORA hierarchy depth"))
    ));

    let prefix = "<image w=\"1\" h=\"1\"><stack></stack>";
    let suffix = "</image>";
    let mut exact_xml = String::with_capacity(MAX_XML_BYTES);
    exact_xml.push_str(prefix);
    exact_xml.push_str(&" ".repeat(MAX_XML_BYTES - prefix.len() - suffix.len()));
    exact_xml.push_str(suffix);
    assert_eq!(exact_xml.len(), MAX_XML_BYTES);
    assert!(stack_xml_guard(exact_xml.as_bytes()).is_ok());
    exact_xml.push(' ');
    assert_eq!(stack_xml_guard(exact_xml.as_bytes()), Err(FormatError::LimitExceeded("ORA XML bytes")));
}

#[test]
fn misplaced_roots_are_typed_errors() {
    let layer = || empty("layer", vec![attr("src", "data/a.png")]);
    let image = || start("image", vec![attr("w", "1"), attr("h", "1")]);
    let cases: Vec<(Vec<XmlEvent>, &str)> = vec![
        (vec![image(), end("image"), start("stack", vec![]), layer(), end("stack")], "unbalanced ORA image root"),
        (
            vec![start("stack", vec![]), layer(), end("stack"), image(), start("stack", vec![]), layer(), end("stack"), end("image")],
            "ORA stack outside image",
        ),
        (vec![image(), end("image")], "unbalanced ORA image root"),
        (
            vec![image(), start("stack", vec![]), layer(), end("stack"), start("stack", vec![]), layer(), end("stack"), end("image")],
            "multiple ORA root stacks",
        ),
        (vec![image(), start("stack", vec![]), layer(), end("stack")], "unclosed ORA image or stack"),
        (
            vec![image(), start("stack", vec![]), layer(), end("stack"), end("image"), empty("extra", vec![])],
            "content after ORA image root",
        ),
    ];
    for (events, expected) in cases {
        match error(&events) {
            CoreError::Format(FormatError::Malformed(reason)) => assert_eq!(reason, expected),
            other => panic!("expected malformed {expected:?}, got {other:?}"),
        }
    }
}
