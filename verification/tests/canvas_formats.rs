use redrob::canvas::document::{DocumentMetadata, FrameId, LayerId, NodeKind, Pixel};
use redrob::canvas::timeline::Timeline;
use redrob::canvas::error::FormatError;
use redrob::canvas::formats::{
    export_plan, flatten_warning, jpeg_rgb,
    AlphaPolicy, EffectiveFormatMetadata, ExportOptions, ExportOutcome, FileFormat, FormatWarning,
    ImportOptions, LossPolicy, MAX_FORMAT_INPUT_BYTES, raster_loss_warnings, RasterExportLoss,
};

#[test]
fn import_options_default_and_builders() {
    let options = ImportOptions::default();
    assert_eq!(options.expected_format(), None);
    assert_eq!(options.loss_policy(), LossPolicy::RejectLoss);
    assert_eq!(options.max_input_bytes(), MAX_FORMAT_INPUT_BYTES);
    assert!(options.validate().is_ok());
    let options = options
        .with_expected_format(FileFormat::Ora)
        .with_loss_policy(LossPolicy::AllowLoss)
        .with_max_input_bytes(10);
    assert_eq!(options.expected_format(), Some(FileFormat::Ora));
    assert_eq!(options.loss_policy(), LossPolicy::AllowLoss);
    assert_eq!(options.max_input_bytes(), 10);
}

#[test]
fn option_work_bounds_reject_zero_or_excessive_limits_before_decode() {
    assert_eq!(
        ImportOptions::default().with_max_input_bytes(0).validate(),
        Err(FormatError::InvalidOption("max input bytes"))
    );
    assert_eq!(
        ImportOptions::default()
            .with_max_input_bytes(MAX_FORMAT_INPUT_BYTES + 1)
            .validate(),
        Err(FormatError::InvalidOption("max input bytes"))
    );
    assert!(ImportOptions::default()
        .with_max_input_bytes(MAX_FORMAT_INPUT_BYTES)
        .validate()
        .is_ok());
}

#[test]
fn jpeg_requires_valid_quality_and_opaque_matte() {
    let options = ExportOptions::default();
    assert_eq!(options.frame(), None);
    assert_eq!(options.alpha_policy(), AlphaPolicy::RejectNonOpaque);
    assert_eq!(options.loss_policy(), LossPolicy::RejectLoss);
    assert_eq!(options.jpeg_quality(), 90);
    assert!(options.validate().is_ok());
    for quality in [0_u8, 101] {
        assert_eq!(
            ExportOptions::default().with_jpeg_quality(quality).validate(),
            Err(FormatError::InvalidOption("JPEG quality must be in 1..=100"))
        );
    }
    assert!(ExportOptions::default().with_jpeg_quality(1).validate().is_ok());
    assert!(ExportOptions::default().with_jpeg_quality(100).validate().is_ok());
    let translucent = AlphaPolicy::Flatten { matte: Pixel::rgba(1, 2, 3, 127) };
    assert_eq!(
        ExportOptions::default().with_alpha_policy(translucent).validate(),
        Err(FormatError::InvalidOption("JPEG matte must be opaque"))
    );
    let opaque = AlphaPolicy::Flatten { matte: Pixel::rgba(1, 2, 3, 255) };
    let options = ExportOptions::default()
        .with_alpha_policy(opaque)
        .with_frame(FrameId::new(3))
        .with_loss_policy(LossPolicy::AllowLoss);
    assert!(options.validate().is_ok());
    assert_eq!(options.frame(), Some(FrameId::new(3)));
    assert_eq!(options.alpha_policy(), opaque);
    assert_eq!(options.loss_policy(), LossPolicy::AllowLoss);
}

#[test]
fn export_outcome_hands_back_its_parts() {
    let metadata = EffectiveFormatMetadata {
        format: FileFormat::Png,
        width: 2,
        height: 3,
        frame: Some(FrameId::new(0)),
        jpeg_quality: None,
        lossless: true,
    };
    let warnings = vec![
        FormatWarning::OmittedSelection,
        FormatWarning::RasterizedSemanticNode { node: LayerId::from_u128(9) },
    ];
    let outcome = ExportOutcome::new(vec![1, 2, 3], warnings.clone(), metadata.clone());
    assert_eq!(outcome.bytes(), &[1, 2, 3]);
    assert_eq!(outcome.warnings(), warnings.as_slice());
    assert_eq!(outcome.metadata(), &metadata);
    assert_eq!(outcome.into_bytes(), vec![1, 2, 3]);
}

use redrob::canvas::formats::{detect_format, validate_detected_format};
use redrob::canvas::error::CoreError;
use redrob::canvas::ora::{has_canonical_mimetype, preflight_nodes, ExportNode};
use redrob::canvas::svg::{
    base64_encoded_len, blend, ensure_output_capacity, has_svg_root, xml_guard, MAX_SVG_XML_BYTES,
};
use redrob::canvas::document::BlendMode;
use std::io::Write;

fn ora_bytes(first_name: &str, stored: bool, content: &[u8]) -> Vec<u8> {
    let mut writer = zip::ZipWriter::new(std::io::Cursor::new(Vec::new()));
    let method = if stored {
        zip::CompressionMethod::Stored
    } else {
        zip::CompressionMethod::Deflated
    };
    let options = zip::write::SimpleFileOptions::default().compression_method(method);
    writer.start_file(first_name, options).unwrap();
    writer.write_all(content).unwrap();
    writer.start_file("stack.xml", zip::write::SimpleFileOptions::default()).unwrap();
    writer.write_all(b"<image/>").unwrap();
    writer.finish().unwrap().into_inner()
}

#[test]
fn signatures_select_exactly_one_format() {
    assert_eq!(detect_format(b"\x89PNG\r\n\x1a\nrest"), Ok(FileFormat::Png));
    assert_eq!(detect_format(&[0xff, 0xd8, 0xff]), Ok(FileFormat::Jpeg));
    assert_eq!(detect_format(&[0xff, 0xd8]), Err(FormatError::UnknownFormat));
    assert_eq!(detect_format(b"RIFF\0\0\0\0WEBPVP8 "), Ok(FileFormat::WebP));
    assert_eq!(detect_format(b"RIFF\0\0\0\0WAVE"), Err(FormatError::UnknownFormat));
    assert_eq!(
        detect_format(&ora_bytes("mimetype", true, b"image/openraster")),
        Ok(FileFormat::Ora)
    );
    assert_eq!(
        detect_format(&ora_bytes("mimetype", false, b"image/openraster")),
        Err(FormatError::UnknownFormat)
    );
    assert_eq!(
        detect_format(&ora_bytes("other", true, b"image/openraster")),
        Err(FormatError::UnknownFormat)
    );
    assert_eq!(detect_format(b"<svg width=\"1px\"/>"), Ok(FileFormat::Svg));
    assert_eq!(
        detect_format(b"{\"magic\":\"REDROB_CANVAS_PROJECT\",\"version\":99}"),
        Ok(FileFormat::Rrg)
    );
    assert_eq!(detect_format(b"{\"magic\":\"OTHER\"}"), Err(FormatError::UnknownFormat));
    assert_eq!(detect_format(b"{not json"), Err(FormatError::UnknownFormat));
    assert_eq!(detect_format(b""), Err(FormatError::UnknownFormat));
    assert_eq!(
        detect_format(&vec![0_u8; MAX_FORMAT_INPUT_BYTES + 1]),
        Err(FormatError::InputTooLarge)
    );
}

#[test]
fn canonical_mimetype_needs_a_stored_first_entry_with_exact_content() {
    assert!(has_canonical_mimetype(&ora_bytes("mimetype", true, b"image/openraster")));
    assert!(!has_canonical_mimetype(&ora_bytes("mimetype", true, b"image/png")));
    assert!(!has_canonical_mimetype(&ora_bytes("mimetype", false, b"image/openraster")));
    assert!(!has_canonical_mimetype(b"PK\x03\x04 not an archive"));
}

#[test]
fn svg_roots_are_found_after_marks_white_space_and_declarations() {
    assert!(has_svg_root(b"<svg/>"));
    assert!(has_svg_root("\u{feff}\u{feff} \u{3000}\n<svg/>".as_bytes()));
    assert!(has_svg_root(b"<?xml version=\"1.0\"?>\n<svg/>"));
    assert!(!has_svg_root(b"<?xml version=\"1.0\"?><html/>"));
    assert!(!has_svg_root(b"<html><svg/></html>"));
    assert!(!has_svg_root(b"\xff<svg/>"));
    let mut late = b"<?xml version=\"1.0\"?>".to_vec();
    late.extend(std::iter::repeat(b' ').take(5_000));
    late.extend_from_slice(b"<svg/>");
    assert!(!has_svg_root(&late));
}

#[test]
fn svg_xml_guard_rejects_constructs_in_any_case_and_limits_bytes() {
    assert!(xml_guard(b"<svg><rect/></svg>").is_ok());
    assert_eq!(
        xml_guard(b"<svg><SCRIPT>x</script></svg>"),
        Err(FormatError::UnsupportedFeature("forbidden SVG construct"))
    );
    assert_eq!(
        xml_guard(b"<!DocType svg>"),
        Err(FormatError::UnsupportedFeature("forbidden SVG construct"))
    );
    assert_eq!(
        xml_guard(b"<svg><linearGradient/></svg>"),
        Err(FormatError::UnsupportedFeature("forbidden SVG construct"))
    );
    let mut exact = vec![b' '; MAX_SVG_XML_BYTES];
    assert!(xml_guard(&exact).is_ok());
    exact.push(b' ');
    assert_eq!(xml_guard(&exact), Err(FormatError::LimitExceeded("SVG XML bytes")));
}

#[test]
fn svg_output_sizes_are_checked() {
    assert!(ensure_output_capacity(MAX_SVG_XML_BYTES - 1, 1).is_ok());
    assert_eq!(
        ensure_output_capacity(MAX_SVG_XML_BYTES, 1),
        Err(FormatError::OutputTooLarge)
    );
    assert_eq!(ensure_output_capacity(usize::MAX, 1), Err(FormatError::OutputTooLarge));
    assert_eq!(base64_encoded_len(0), Ok(0));
    assert_eq!(base64_encoded_len(1), Ok(4));
    assert_eq!(base64_encoded_len(3), Ok(4));
    assert_eq!(base64_encoded_len(4), Ok(8));
    assert_eq!(base64_encoded_len(usize::MAX), Err(FormatError::OutputTooLarge));
    assert_eq!(blend(BlendMode::Add), "plus");
    assert_eq!(blend(BlendMode::Normal), "normal");
}

#[test]
fn detected_formats_are_checked_against_options() {
    let png = b"\x89PNG\r\n\x1a\n";
    assert!(matches!(validate_detected_format(png, &ImportOptions::default()), Ok(FileFormat::Png)));
    assert!(matches!(
        validate_detected_format(png, &ImportOptions::default().with_expected_format(FileFormat::Jpeg)),
        Err(CoreError::Format(FormatError::FormatMismatch {
            expected: FileFormat::Jpeg,
            detected: FileFormat::Png
        }))
    ));
    assert!(matches!(
        validate_detected_format(png, &ImportOptions::default().with_max_input_bytes(4)),
        Err(CoreError::Format(FormatError::InputTooLarge))
    ));
    assert!(matches!(
        validate_detected_format(png, &ImportOptions::default().with_max_input_bytes(0)),
        Err(CoreError::Format(FormatError::InvalidOption("max input bytes")))
    ));
    assert!(matches!(
        validate_detected_format(b"????", &ImportOptions::default()),
        Err(CoreError::Format(FormatError::UnknownFormat))
    ));
}

#[test]
fn raster_export_loss_is_warned_in_order_or_refused_at_the_first_loss() {
    let text = LayerId::from_u128(7);
    let vector = LayerId::from_u128(9);
    let everything = RasterExportLoss {
        has_metadata: true,
        frame_count: 3,
        selection_active: true,
        flattened: true,
        semantic_nodes: vec![text, vector],
    };
    let frame = FrameId::new(2);
    assert_eq!(
        raster_loss_warnings(&everything, frame, LossPolicy::AllowLoss).unwrap(),
        vec![
            FormatWarning::OmittedMetadata,
            FormatWarning::OmittedFrames { exported: frame },
            FormatWarning::OmittedSelection,
            FormatWarning::FlattenedHierarchy,
            FormatWarning::RasterizedSemanticNode { node: text },
            FormatWarning::RasterizedSemanticNode { node: vector },
        ]
    );
    let refusal = |loss: &RasterExportLoss| match raster_loss_warnings(loss, frame, LossPolicy::RejectLoss) {
        Err(CoreError::Format(FormatError::LossRequired(message))) => message,
        other => panic!("unexpected {other:?}"),
    };
    assert_eq!(refusal(&everything), "target format cannot preserve document metadata");
    let mut loss = everything.clone();
    loss.has_metadata = false;
    assert_eq!(refusal(&loss), "raster export omits other frames");
    loss.frame_count = 1;
    assert_eq!(refusal(&loss), "raster export omits selection");
    loss.selection_active = false;
    assert_eq!(refusal(&loss), "raster export flattens document structure");
    loss.flattened = false;
    assert_eq!(refusal(&loss), "raster export rasterizes semantic nodes");
    loss.semantic_nodes.clear();
    assert_eq!(
        raster_loss_warnings(&loss, frame, LossPolicy::RejectLoss).unwrap(),
        Vec::new()
    );
    assert_eq!(
        raster_loss_warnings(&loss, frame, LossPolicy::AllowLoss).unwrap(),
        Vec::new()
    );
}

#[test]
fn default_metadata_has_no_content_and_any_field_gives_some() {
    let empty = DocumentMetadata::default();
    assert!(!empty.has_content());
    let titled = DocumentMetadata { title: "Poster".to_string(), ..DocumentMetadata::default() };
    assert!(titled.has_content());
    let authored =
        DocumentMetadata { author: Some("Ada".to_string()), ..DocumentMetadata::default() };
    assert!(authored.has_content());
    let mut described = DocumentMetadata::default();
    described.properties.insert("k".to_string(), "v".to_string());
    assert!(described.has_content());
}

#[test]
fn ora_export_preflight_reports_each_node_loss() {
    let node = |id: u128, kind: NodeKind, mask: Option<bool>| ExportNode { id: LayerId(id), kind, mask };
    let nodes = [
        node(1, NodeKind::Raster, None),
        node(2, NodeKind::Text, None),
        node(3, NodeKind::Raster, Some(true)),
        node(4, NodeKind::Vector, Some(false)),
        node(5, NodeKind::Group, Some(false)),
        node(6, NodeKind::Group, None),
    ];
    let mut warnings = Vec::new();
    preflight_nodes(&nodes, LossPolicy::AllowLoss, &mut warnings).unwrap();
    assert_eq!(
        warnings,
        vec![
            FormatWarning::RasterizedSemanticNode { node: LayerId(2) },
            FormatWarning::BakedRasterMask { node: LayerId(3) },
            FormatWarning::RasterizedSemanticNode { node: LayerId(4) },
            FormatWarning::OmittedDisabledMask { node: LayerId(4) },
            FormatWarning::OmittedDisabledMask { node: LayerId(5) },
        ]
    );
    let mut warnings = Vec::new();
    assert!(preflight_nodes(&nodes[..1], LossPolicy::RejectLoss, &mut warnings).is_ok());
    assert!(warnings.is_empty());
    assert!(matches!(
        preflight_nodes(&nodes, LossPolicy::RejectLoss, &mut warnings),
        Err(CoreError::Format(FormatError::LossRequired("ORA cannot preserve semantic source nodes")))
    ));
    assert!(matches!(
        preflight_nodes(&nodes[2..3], LossPolicy::RejectLoss, &mut warnings),
        Err(CoreError::Format(FormatError::LossRequired("ORA cannot preserve raster mask source")))
    ));
    assert!(matches!(
        preflight_nodes(&nodes[4..5], LossPolicy::RejectLoss, &mut warnings),
        Err(CoreError::Format(FormatError::LossRequired(
            "ORA cannot preserve disabled group mask source"
        )))
    ));
    let masked_group = [node(7, NodeKind::Group, Some(true))];
    assert!(matches!(
        preflight_nodes(&masked_group, LossPolicy::AllowLoss, &mut warnings),
        Err(CoreError::Format(FormatError::UnsupportedFeature(
            "masked ORA groups cannot be represented safely"
        )))
    ));
}

fn no_loss() -> RasterExportLoss {
    RasterExportLoss {
        has_metadata: false,
        frame_count: 1,
        selection_active: false,
        flattened: false,
        semantic_nodes: Vec::new(),
    }
}

#[test]
fn export_plan_picks_the_frame_and_refuses_loss_by_default() {
    let timeline = Timeline::default();
    let options = ExportOptions::default();
    let plan = export_plan(&options, FileFormat::Png, &timeline, &no_loss(), &[]).unwrap();
    assert_eq!(plan.frame, FrameId::new(0));
    assert!(plan.warnings.is_empty());
    assert_eq!(plan.jpeg_quality, None);
    assert!(plan.lossless);
    let jpeg = export_plan(&options, FileFormat::Jpeg, &timeline, &no_loss(), &[]).unwrap();
    assert_eq!(jpeg.jpeg_quality, Some(options.jpeg_quality()));
    assert!(!jpeg.lossless);
    assert!(matches!(
        export_plan(&options.clone().with_frame(FrameId::new(5)), FileFormat::Png, &timeline, &no_loss(), &[]),
        Err(CoreError::FrameNotFound(FrameId(5)))
    ));
    assert!(matches!(
        export_plan(&options.clone().with_frame(FrameId::new(0)), FileFormat::Rrg, &timeline, &no_loss(), &[]),
        Err(CoreError::Format(FormatError::InvalidOption("RRG export does not select a frame")))
    ));
    let layered = RasterExportLoss { frame_count: 2, selection_active: true, ..no_loss() };
    assert!(matches!(
        export_plan(&options, FileFormat::Ora, &timeline, &layered, &[]),
        Err(CoreError::Format(FormatError::LossRequired("ORA export omits other frames")))
    ));
    assert!(matches!(
        export_plan(&options, FileFormat::Svg, &timeline, &layered, &[]),
        Err(CoreError::Format(FormatError::LossRequired("SVG export omits other frames")))
    ));
    let allow = options.clone().with_loss_policy(LossPolicy::AllowLoss);
    let text = [ExportNode { id: LayerId(9), kind: NodeKind::Text, mask: None }];
    let ora = export_plan(&allow, FileFormat::Ora, &timeline, &layered, &text).unwrap();
    assert_eq!(
        ora.warnings,
        vec![
            FormatWarning::OmittedFrames { exported: FrameId::new(0) },
            FormatWarning::OmittedSelection,
            FormatWarning::RasterizedSemanticNode { node: LayerId(9) },
        ]
    );
    let bad_quality = options.clone().with_jpeg_quality(0);
    assert!(matches!(
        export_plan(&bad_quality, FileFormat::Png, &timeline, &no_loss(), &[]),
        Err(CoreError::Format(FormatError::InvalidOption("JPEG quality must be in 1..=100")))
    ));
}

#[test]
fn jpeg_data_flattens_onto_the_matte_or_refuses_translucency() {
    let pixels = [10_u8, 20, 30, 255, 200, 100, 0, 128];
    let options = ExportOptions::default();
    assert!(matches!(
        jpeg_rgb(&pixels, &options),
        Err(CoreError::Format(FormatError::LossRequired(_)))
    ));
    assert_eq!(jpeg_rgb(&pixels[..4], &options).unwrap(), vec![10, 20, 30]);
    assert_eq!(flatten_warning(&pixels, FileFormat::Jpeg, &options), None);
    let matte = Pixel::rgba(255, 255, 255, 255);
    let flatten = options.with_alpha_policy(AlphaPolicy::Flatten { matte });
    // 200 * 128 + 255 * 127 + 127 = 58112 -> 227; 100 -> 177; 0 -> 127
    assert_eq!(jpeg_rgb(&pixels, &flatten).unwrap(), vec![10, 20, 30, 227, 177, 127]);
    assert_eq!(
        flatten_warning(&pixels, FileFormat::Jpeg, &flatten),
        Some(FormatWarning::FlattenedAlpha { matte })
    );
    assert_eq!(flatten_warning(&pixels, FileFormat::Png, &flatten), None);
    assert_eq!(flatten_warning(&pixels[..4], FileFormat::Jpeg, &flatten), None);
}
