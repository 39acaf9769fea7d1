//! Typed, bounded file-format boundaries.

use vstd::prelude::*;
use vstd::string::StringExecFns;

use crate::canvas::document::{Frame, FrameId, NodeId, Pixel};
use crate::canvas::error::{CoreError, FormatError};
use crate::canvas::ora::{
    canonical_mimetype_spec, has_canonical_mimetype, nodes_loss, preflight_nodes, ExportNode,
};
use crate::canvas::timeline::{has_frame, Timeline};
use crate::canvas::svg::{has_svg_root, svg_root_spec};

verus! {

pub const MAX_FORMAT_INPUT_BYTES: usize = 64 * 1024 * 1024;
pub const MAX_FORMAT_OUTPUT_BYTES: usize = 512 * 1024 * 1024;

/// Formats accepted by the generic core API.
#[derive(Clone, Copy, Debug, PartialEq, Eq)]
#[non_exhaustive]
pub enum FileFormat {
    Rrg,
    Png,
    Jpeg,
    WebP,
    Ora,
    Svg,
}

/// Policy for formats that cannot represent straight alpha.
#[derive(Clone, Copy, Debug, Default, PartialEq, Eq)]
pub enum AlphaPolicy {
    #[default]
    RejectNonOpaque,
    Flatten { matte: Pixel },
}

/// Policy for representational loss at a format boundary.
#[derive(Clone, Copy, Debug, Default, PartialEq, Eq, Structural)]
pub enum LossPolicy {
    #[default]
    RejectLoss,
    AllowLoss,
}

/// Stable machine-readable warnings emitted only for explicitly allowed loss.
#[derive(Clone, Debug, PartialEq, Eq)]
#[non_exhaustive]
pub enum FormatWarning {
    FlattenedHierarchy,
    FlattenedAlpha { matte: Pixel },
    RasterizedSemanticNode { node: NodeId },
    BakedRasterMask { node: NodeId },
    OmittedDisabledMask { node: NodeId },
    OmittedFrames { exported: FrameId },
    OmittedSelection,
    OmittedMetadata,
    EmbeddedRasterData { node: NodeId },
}

/// Effective metadata for one completed import or export.
#[derive(Clone, Debug, PartialEq, Eq)]
pub struct EffectiveFormatMetadata {
    pub format: FileFormat,
    pub width: u32,
    pub height: u32,
    pub frame: Option<FrameId>,
    pub jpeg_quality: Option<u8>,
    pub lossless: bool,
}

/// Bounded generic import controls.
#[derive(Clone, Debug, PartialEq, Eq)]
pub struct ImportOptions {
    expected_format: Option<FileFormat>,
    loss_policy: LossPolicy,
    max_input_bytes: usize,
}

/// Abstract import options.
pub struct ImportOptionsView {
    pub expected_format: Option<FileFormat>,
    pub loss_policy: LossPolicy,
    pub max_input_bytes: usize,
}

impl View for ImportOptions {
    type V = ImportOptionsView;

    closed spec fn view(&self) -> ImportOptionsView {
        ImportOptionsView {
            expected_format: self.expected_format,
            loss_policy: self.loss_policy,
            max_input_bytes: self.max_input_bytes,
        }
    }
}

impl Default for ImportOptions {
    /// No expected format, loss rejected, the full input limit.
    fn default() -> (options: Self)
        ensures
            options@ == (ImportOptionsView {
                expected_format: None,
                loss_policy: LossPolicy::RejectLoss,
                max_input_bytes: MAX_FORMAT_INPUT_BYTES,
            }),
    {
        ImportOptions {
            expected_format: None,
            loss_policy: LossPolicy::RejectLoss,
            max_input_bytes: MAX_FORMAT_INPUT_BYTES,
        }
    }
}

impl ImportOptions {
    pub fn with_expected_format(self, format: FileFormat) -> (options: Self)
        ensures
            options@ == (ImportOptionsView { expected_format: Some(format), ..self@ }),
    {
        ImportOptions { expected_format: Some(format), ..self }
    }

    pub fn with_loss_policy(self, policy: LossPolicy) -> (options: Self)
        ensures
            options@ == (ImportOptionsView { loss_policy: policy, ..self@ }),
    {
        ImportOptions { loss_policy: policy, ..self }
    }

    pub fn with_max_input_bytes(self, bytes: usize) -> (options: Self)
        ensures
            options@ == (ImportOptionsView { max_input_bytes: bytes, ..self@ }),
    {
        ImportOptions { max_input_bytes: bytes, ..self }
    }

    pub fn expected_format(&self) -> (format: Option<FileFormat>)
        ensures
            format == self@.expected_format,
    {
        self.expected_format
    }

    pub fn loss_policy(&self) -> (policy: LossPolicy)
        ensures
            policy == self@.loss_policy,
    {
        self.loss_policy
    }

    pub fn max_input_bytes(&self) -> (bytes: usize)
        ensures
            bytes == self@.max_input_bytes,
    {
        self.max_input_bytes
    }

    /// Rejects an input limit of zero or above the format input limit.
    pub fn validate(&self) -> (r: Result<(), FormatError>)
        ensures
            r is Ok <==> 0 < self@.max_input_bytes <= MAX_FORMAT_INPUT_BYTES,
            r is Err ==> (r matches Err(FormatError::InvalidOption(m)) && m == "max input bytes"),
    {
        if self.max_input_bytes == 0 || self.max_input_bytes > MAX_FORMAT_INPUT_BYTES {
            return Err(FormatError::InvalidOption("max input bytes"));
        }
        Ok(())
    }
}

/// Bounded generic export controls. Defaults reject all degradation.
#[derive(Clone, Debug, PartialEq, Eq)]
pub struct ExportOptions {
    frame: Option<FrameId>,
    alpha_policy: AlphaPolicy,
    loss_policy: LossPolicy,
    jpeg_quality: u8,
}

/// Abstract export options.
pub struct ExportOptionsView {
    pub frame: Option<FrameId>,
    pub alpha_policy: AlphaPolicy,
    pub loss_policy: LossPolicy,
    pub jpeg_quality: u8,
}

impl View for ExportOptions {
    type V = ExportOptionsView;

    closed spec fn view(&self) -> ExportOptionsView {
        ExportOptionsView {
            frame: self.frame,
            alpha_policy: self.alpha_policy,
            loss_policy: self.loss_policy,
            jpeg_quality: self.jpeg_quality,
        }
    }
}

impl Default for ExportOptions {
    /// The current frame, opaque input required, loss rejected, JPEG
    /// quality 90.
    fn default() -> (options: Self)
        ensures
            options@ == (ExportOptionsView {
                frame: None,
                alpha_policy: AlphaPolicy::RejectNonOpaque,
                loss_policy: LossPolicy::RejectLoss,
                jpeg_quality: 90,
            }),
    {
        ExportOptions {
            frame: None,
            alpha_policy: AlphaPolicy::RejectNonOpaque,
            loss_policy: LossPolicy::RejectLoss,
            jpeg_quality: 90,
        }
    }
}

impl ExportOptions {
    pub fn with_frame(self, frame: FrameId) -> (options: Self)
        ensures
            options@ == (ExportOptionsView { frame: Some(frame), ..self@ }),
    {
        ExportOptions { frame: Some(frame), ..self }
    }

    pub fn with_alpha_policy(self, policy: AlphaPolicy) -> (options: Self)
        ensures
            options@ == (ExportOptionsView { alpha_policy: policy, ..self@ }),
    {
        ExportOptions { alpha_policy: policy, ..self }
    }

    pub fn with_loss_policy(self, policy: LossPolicy) -> (options: Self)
        ensures
            options@ == (ExportOptionsView { loss_policy: policy, ..self@ }),
    {
        ExportOptions { loss_policy: policy, ..self }
    }

    pub fn with_jpeg_quality(self, quality: u8) -> (options: Self)
        ensures
            options@ == (ExportOptionsView { jpeg_quality: quality, ..self@ }),
    {
        ExportOptions { jpeg_quality: quality, ..self }
    }

    pub fn frame(&self) -> (frame: Option<FrameId>)
        ensures
            frame == self@.frame,
    {
        self.frame
    }

    pub fn alpha_policy(&self) -> (policy: AlphaPolicy)
        ensures
            policy == self@.alpha_policy,
    {
        self.alpha_policy
    }

    pub fn loss_policy(&self) -> (policy: LossPolicy)
        ensures
            policy == self@.loss_policy,
    {
        self.loss_policy
    }

    pub fn jpeg_quality(&self) -> (quality: u8)
        ensures
            quality == self@.jpeg_quality,
    {
        self.jpeg_quality
    }

    /// Requires a JPEG quality in `1..=100` and an opaque flattening matte.
    pub fn validate(&self) -> (r: Result<(), FormatError>)
        ensures
            r is Ok <==> 1 <= self@.jpeg_quality <= 100 && !(self@.alpha_policy matches AlphaPolicy::Flatten {
                matte,
            } && matte.a != 255),
            !(1 <= self@.jpeg_quality <= 100) ==> (r matches Err(FormatError::InvalidOption(m)) && m
                == "JPEG quality must be in 1..=100"),
            1 <= self@.jpeg_quality <= 100 && r is Err ==> (r matches Err(FormatError::InvalidOption(m)) && m
                == "JPEG matte must be opaque"),
    {
        if self.jpeg_quality < 1 || self.jpeg_quality > 100 {
            return Err(FormatError::InvalidOption("JPEG quality must be in 1..=100"));
        }
        if let AlphaPolicy::Flatten { matte } = self.alpha_policy {
            if matte.a != 255 {
                return Err(FormatError::InvalidOption("JPEG matte must be opaque"));
            }
        }
        Ok(())
    }
}

/// Bytes, warnings, and metadata of a completed export.
#[derive(Debug)]
pub struct ExportOutcome {
    bytes: Vec<u8>,
    warnings: Vec<FormatWarning>,
    metadata: EffectiveFormatMetadata,
}

/// Abstract export outcome.
pub struct ExportOutcomeView {
    pub bytes: Seq<u8>,
    pub warnings: Seq<FormatWarning>,
    pub metadata: EffectiveFormatMetadata,
}

impl View for ExportOutcome {
    type V = ExportOutcomeView;

    closed spec fn view(&self) -> ExportOutcomeView {
        ExportOutcomeView { bytes: self.bytes@, warnings: self.warnings@, metadata: self.metadata }
    }
}

impl ExportOutcome {
    pub fn new(bytes: Vec<u8>, warnings: Vec<FormatWarning>, metadata: EffectiveFormatMetadata) -> (outcome: Self)
        ensures
            outcome@ == (ExportOutcomeView { bytes: bytes@, warnings: warnings@, metadata }),
    {
        ExportOutcome { bytes, warnings, metadata }
    }

    pub fn bytes(&self) -> (bytes: &[u8])
        ensures
            bytes@ == self@.bytes,
    {
        self.bytes.as_slice()
    }

    pub fn into_bytes(self) -> (bytes: Vec<u8>)
        ensures
            bytes@ == self@.bytes,
    {
        self.bytes
    }

    pub fn warnings(&self) -> (warnings: &[FormatWarning])
        ensures
            warnings@ == self@.warnings,
    {
        self.warnings.as_slice()
    }

    pub fn metadata(&self) -> (metadata: &EffectiveFormatMetadata)
        ensures
            *metadata == self@.metadata,
    {
        &self.metadata
    }
}

/// What `serde_json` reads from `bytes` as one JSON value: `None` when they
/// are not one; otherwise the string stored under `key` when the value is an
/// object with such a string member.
pub uninterp spec fn json_string_member(bytes: Seq<u8>, key: Seq<char>) -> Option<Option<Seq<char>>>;

/// Parses `bytes` with `serde_json::from_slice` into a `serde_json::Value` and
/// looks up `key` with `Value::get` and `Value::as_str`.
#[verifier::external_body]
fn json_string_member_of(bytes: &[u8], key: &str) -> (r: Option<Option<String>>)
    ensures
        json_string_member(bytes@, key@) == match r {
            None => None::<Option<Seq<char>>>,
            Some(None) => Some(None::<Seq<char>>),
            Some(Some(value)) => Some(Some(value@)),
        },
{
    match serde_json::from_slice::<serde_json::Value>(bytes) {
        Err(_) => None,
        Ok(value) => Some(value.get(key).and_then(serde_json::Value::as_str).map(str::to_string)),
    }
}

/// The magic string that opens a project file.
pub open spec fn project_magic() -> Seq<char> {
    "REDROB_CANVAS_PROJECT"@
}

/// The PNG signature.
pub open spec fn png_signature() -> Seq<u8> {
    seq![0x89u8, 0x50, 0x4E, 0x47, 0x0D, 0x0A, 0x1A, 0x0A]
}

/// Whether `s` starts with `prefix`.
pub open spec fn starts_with(s: Seq<u8>, prefix: Seq<u8>) -> bool {
    prefix.len() <= s.len() && s.take(prefix.len() as int) == prefix
}

/// ASCII white space as `u8::is_ascii_whitespace` defines it.
pub open spec fn is_ascii_white_space(b: u8) -> bool {
    b == 0x20 || b == 0x09 || b == 0x0A || b == 0x0C || b == 0x0D
}

/// Strict content detection, signature by signature; file names are never
/// consulted.
pub open spec fn detect_spec(s: Seq<u8>) -> Result<FileFormat, FormatError> {
    if s.len() > MAX_FORMAT_INPUT_BYTES {
        Err(FormatError::InputTooLarge)
    } else if starts_with(s, png_signature()) {
        Ok(FileFormat::Png)
    } else if starts_with(s, seq![0xFFu8, 0xD8, 0xFF]) {
        Ok(FileFormat::Jpeg)
    } else if s.len() >= 12 && starts_with(s, seq![0x52u8, 0x49, 0x46, 0x46]) && s.subrange(8, 12) == seq![
        0x57u8,
        0x45,
        0x42,
        0x50,
    ] {
        Ok(FileFormat::WebP)
    } else if starts_with(s, seq![0x50u8, 0x4B, 0x03, 0x04]) && canonical_mimetype_spec(s) {
        Ok(FileFormat::Ora)
    } else if s.len() > 0 && (is_ascii_white_space(s[0]) || s[0] == 0x3C) && svg_root_spec(s) {
        Ok(FileFormat::Svg)
    } else if s.len() > 0 && s[0] == 0x7B {
        match json_string_member(s, "magic"@) {
            None => Err(FormatError::UnknownFormat),
            Some(magic) => if magic == Some(project_magic()) {
                Ok(FileFormat::Rrg)
            } else {
                Err(FormatError::UnknownFormat)
            },
        }
    } else {
        Err(FormatError::UnknownFormat)
    }
}

fn starts_with_bytes(s: &[u8], prefix: &[u8]) -> (r: bool)
    ensures
        r == starts_with(s@, prefix@),
{
    if prefix.len() > s.len() {
        return false;
    }
    let mut k: usize = 0;
    while k < prefix.len()
        invariant
            prefix@.len() <= s@.len(),
            k <= prefix@.len(),
            forall|j: int| 0 <= j < k ==> s@[j] == prefix@[j],
        decreases prefix@.len() - k,
    {
        if s[k] != prefix[k] {
            proof {
                assert(s@.take(prefix@.len() as int)[k as int] != prefix@[k as int]);
            }
            return false;
        }
        k = k + 1;
    }
    proof {
        assert(s@.take(prefix@.len() as int) =~= prefix@);
    }
    true
}

/// Detects a format from strict content signatures.
pub fn detect_format(bytes: &[u8]) -> (r: Result<FileFormat, FormatError>)
    ensures
        r == detect_spec(bytes@),
{
    if bytes.len() > MAX_FORMAT_INPUT_BYTES {
        return Err(FormatError::InputTooLarge);
    }
    let png: [u8; 8] = [0x89, 0x50, 0x4E, 0x47, 0x0D, 0x0A, 0x1A, 0x0A];
    let jpeg: [u8; 3] = [0xFF, 0xD8, 0xFF];
    let riff: [u8; 4] = [0x52, 0x49, 0x46, 0x46];
    let zip: [u8; 4] = [0x50, 0x4B, 0x03, 0x04];
    proof {
        assert(png@ == png_signature());
        assert(jpeg@ == seq![0xFFu8, 0xD8, 0xFF]);
        assert(riff@ == seq![0x52u8, 0x49, 0x46, 0x46]);
        assert(zip@ == seq![0x50u8, 0x4B, 0x03, 0x04]);
    }
    if starts_with_bytes(bytes, png.as_slice()) {
        return Ok(FileFormat::Png);
    }
    if starts_with_bytes(bytes, jpeg.as_slice()) {
        return Ok(FileFormat::Jpeg);
    }
    if bytes.len() >= 12 && starts_with_bytes(bytes, riff.as_slice()) && bytes[8] == 0x57 && bytes[9] == 0x45
        && bytes[10] == 0x42 && bytes[11] == 0x50 {
        proof {
            assert(bytes@.subrange(8, 12) =~= seq![0x57u8, 0x45, 0x42, 0x50]);
        }
        return Ok(FileFormat::WebP);
    }
    proof {
        if bytes@.len() >= 12 {
            if bytes@.subrange(8, 12) == seq![0x57u8, 0x45, 0x42, 0x50] {
                assert(bytes@[8] == bytes@.subrange(8, 12)[0]);
                assert(bytes@[9] == bytes@.subrange(8, 12)[1]);
                assert(bytes@[10] == bytes@.subrange(8, 12)[2]);
                assert(bytes@[11] == bytes@.subrange(8, 12)[3]);
            }
        }
    }
    if starts_with_bytes(bytes, zip.as_slice()) && has_canonical_mimetype(bytes) {
        return Ok(FileFormat::Ora);
    }
    if bytes.len() > 0 {
        let first = bytes[0];
        let white = first == 0x20 || first == 0x09 || first == 0x0A || first == 0x0C || first == 0x0D;
        if (white || first == 0x3C) && has_svg_root(bytes) {
            return Ok(FileFormat::Svg);
        }
        if first == 0x7B {
            let magic = match json_string_member_of(bytes, "magic") {
                None => return Err(FormatError::UnknownFormat),
                Some(magic) => magic,
            };
            let expected = String::from_str("REDROB_CANVAS_PROJECT");
            let found = match magic {
                Some(value) => value == expected,
                None => false,
            };
            if found {
                return Ok(FileFormat::Rrg);
            }
        }
    }
    Err(FormatError::UnknownFormat)
}

/// Checks the import options, the input size, and that the detected format
/// is the expected one.
pub fn validate_detected_format(bytes: &[u8], options: &ImportOptions) -> (r: Result<FileFormat, CoreError>)
    ensures
        !(0 < options@.max_input_bytes <= MAX_FORMAT_INPUT_BYTES) ==> (r matches Err(
            CoreError::Format(FormatError::InvalidOption(m)),
        ) && m == "max input bytes"),
        0 < options@.max_input_bytes <= MAX_FORMAT_INPUT_BYTES ==> ({
            if bytes@.len() > options@.max_input_bytes {
                r matches Err(CoreError::Format(FormatError::InputTooLarge))
            } else {
                match detect_spec(bytes@) {
                    Err(e) => (r matches Err(CoreError::Format(x)) && x == e),
                    Ok(detected) => match options@.expected_format {
                        Some(expected) => if detected != expected {
                            (r matches Err(CoreError::Format(FormatError::FormatMismatch { expected: x, detected: y }))
                                && x == expected && y == detected)
                        } else {
                            r == Ok::<FileFormat, CoreError>(detected)
                        },
                        None => r == Ok::<FileFormat, CoreError>(detected),
                    },
                }
            }
        }),
{
    match options.validate() {
        Ok(()) => {},
        Err(e) => return Err(CoreError::Format(e)),
    }
    if bytes.len() > options.max_input_bytes() {
        return Err(CoreError::Format(FormatError::InputTooLarge));
    }
    let detected = match detect_format(bytes) {
        Ok(format) => format,
        Err(e) => return Err(CoreError::Format(e)),
    };
    if let Some(expected) = options.expected_format() {
        if !same_format(detected, expected) {
            return Err(CoreError::Format(FormatError::FormatMismatch { expected, detected }));
        }
    }
    Ok(detected)
}

fn same_format(a: FileFormat, b: FileFormat) -> (r: bool)
    ensures
        r == (a == b),
{
    match (a, b) {
        (FileFormat::Rrg, FileFormat::Rrg) => true,
        (FileFormat::Png, FileFormat::Png) => true,
        (FileFormat::Jpeg, FileFormat::Jpeg) => true,
        (FileFormat::WebP, FileFormat::WebP) => true,
        (FileFormat::Ora, FileFormat::Ora) => true,
        (FileFormat::Svg, FileFormat::Svg) => true,
        _ => false,
    }
}

/// What a single-image raster export leaves out of a document: whether it
/// has non-default metadata, how many frames it has, whether a selection is
/// active, whether its node structure must be flattened, and its text and
/// vector nodes, in document order.
#[derive(Clone, Debug, PartialEq, Eq)]
pub struct RasterExportLoss {
    pub has_metadata: bool,
    pub frame_count: usize,
    pub selection_active: bool,
    pub flattened: bool,
    pub semantic_nodes: Vec<NodeId>,
}

/// Records that metadata is left out, or refuses when loss is not allowed.
pub fn check_metadata_loss(
    has_metadata: bool,
    policy: LossPolicy,
    warnings: &mut Vec<FormatWarning>,
) -> (r: Result<(), CoreError>)
    ensures
        has_metadata && policy == LossPolicy::RejectLoss ==> (r matches Err(
            CoreError::Format(FormatError::LossRequired(m)),
        ) && m == "target format cannot preserve document metadata") && final(warnings)@
            == old(warnings)@,
        has_metadata && policy == LossPolicy::AllowLoss ==> r is Ok && final(warnings)@ == old(
            warnings,
        )@.push(FormatWarning::OmittedMetadata),
        !has_metadata ==> r is Ok && final(warnings)@ == old(warnings)@,
{
    if has_metadata {
        if policy == LossPolicy::RejectLoss {
            return Err(
                CoreError::Format(
                    FormatError::LossRequired("target format cannot preserve document metadata"),
                ),
            );
        }
        warnings.push(FormatWarning::OmittedMetadata);
    }
    Ok(())
}

/// One warning per text or vector node that a raster export rasterizes.
pub open spec fn semantic_warnings(nodes: Seq<NodeId>) -> Seq<FormatWarning> {
    nodes.map_values(|node: NodeId| FormatWarning::RasterizedSemanticNode { node })
}

/// The warnings of a raster export of frame `frame`, in the order metadata,
/// frames, selection, structure, semantic nodes; or, when loss is refused,
/// the first loss found in that order.
pub open spec fn raster_loss_spec(loss: RasterExportLoss, frame: FrameId, policy: LossPolicy) -> Result<
    Seq<FormatWarning>,
    &'static str,
> {
    if policy == LossPolicy::RejectLoss {
        if loss.has_metadata {
            Err("target format cannot preserve document metadata")
        } else if loss.frame_count > 1 {
            Err("raster export omits other frames")
        } else if loss.selection_active {
            Err("raster export omits selection")
        } else if loss.flattened {
            Err("raster export flattens document structure")
        } else if loss.semantic_nodes@.len() > 0 {
            Err("raster export rasterizes semantic nodes")
        } else {
            Ok(seq![])
        }
    } else {
        Ok(
            (if loss.has_metadata {
                seq![FormatWarning::OmittedMetadata]
            } else {
                seq![]
            }) + (if loss.frame_count > 1 {
                seq![FormatWarning::OmittedFrames { exported: frame }]
            } else {
                seq![]
            }) + (if loss.selection_active {
                seq![FormatWarning::OmittedSelection]
            } else {
                seq![]
            }) + (if loss.flattened {
                seq![FormatWarning::FlattenedHierarchy]
            } else {
                seq![]
            }) + semantic_warnings(loss.semantic_nodes@),
        )
    }
}

/// The warnings a raster export of frame `frame` must carry, or the loss
/// that refuses it.
pub fn raster_loss_warnings(loss: &RasterExportLoss, frame: FrameId, policy: LossPolicy) -> (r: Result<
    Vec<FormatWarning>,
    CoreError,
>)
    ensures
        match raster_loss_spec(*loss, frame, policy) {
            Ok(expected) => r matches Ok(warnings) && warnings@ == expected,
            Err(message) => r matches Err(CoreError::Format(FormatError::LossRequired(m))) && m
                == message,
        },
{
    let reject = policy == LossPolicy::RejectLoss;
    let mut warnings: Vec<FormatWarning> = Vec::new();
    check_metadata_loss(loss.has_metadata, policy, &mut warnings)?;
    if loss.frame_count > 1 {
        if reject {
            return Err(CoreError::Format(FormatError::LossRequired("raster export omits other frames")));
        }
        warnings.push(FormatWarning::OmittedFrames { exported: frame });
    }
    if loss.selection_active {
        if reject {
            return Err(CoreError::Format(FormatError::LossRequired("raster export omits selection")));
        }
        warnings.push(FormatWarning::OmittedSelection);
    }
    if loss.flattened {
        if reject {
            return Err(
                CoreError::Format(FormatError::LossRequired("raster export flattens document structure")),
            );
        }
        warnings.push(FormatWarning::FlattenedHierarchy);
    }
    let ghost prefix = warnings@;
    let nodes = &loss.semantic_nodes;
    let mut i: usize = 0;
    while i < nodes.len()
        invariant
            i <= nodes@.len(),
            warnings@ == prefix + semantic_warnings(nodes@.take(i as int)),
            reject ==> nodes@.len() == 0 || i == 0,
            reject == (policy == LossPolicy::RejectLoss),
            nodes@ == loss.semantic_nodes@,
            reject ==> !loss.has_metadata && loss.frame_count <= 1 && !loss.selection_active
                && !loss.flattened,
        decreases nodes@.len() - i,
    {
        if reject {
            return Err(
                CoreError::Format(FormatError::LossRequired("raster export rasterizes semantic nodes")),
            );
        }
        warnings.push(FormatWarning::RasterizedSemanticNode { node: nodes[i] });
        proof {
            assert(nodes@.take(i + 1) =~= nodes@.take(i as int).push(nodes@[i as int]));
            assert(semantic_warnings(nodes@.take(i + 1)) =~= semantic_warnings(
                nodes@.take(i as int),
            ).push(FormatWarning::RasterizedSemanticNode { node: nodes@[i as int] }));
        }
        i = i + 1;
    }
    proof {
        assert(nodes@.take(nodes@.len() as int) =~= nodes@);
    }
    Ok(warnings)
}

/// What an export will produce before any pixels are encoded: the frame it
/// exports, the warnings for what it loses, the JPEG quality it uses, and
/// whether it is lossless.
pub struct ExportPlan {
    pub frame: FrameId,
    pub warnings: Vec<FormatWarning>,
    pub jpeg_quality: Option<u8>,
    pub lossless: bool,
}

/// The document-level losses of a layered export (ORA or SVG): metadata,
/// other frames and the selection, refused in that order under
/// `RejectLoss` with the format's own messages.
pub open spec fn layered_loss_spec(
    loss: RasterExportLoss,
    frame: FrameId,
    policy: LossPolicy,
    frames_message: &'static str,
    selection_message: &'static str,
) -> Result<Seq<FormatWarning>, &'static str> {
    if policy == LossPolicy::RejectLoss {
        if loss.has_metadata {
            Err("target format cannot preserve document metadata")
        } else if loss.frame_count > 1 {
            Err(frames_message)
        } else if loss.selection_active {
            Err(selection_message)
        } else {
            Ok(seq![])
        }
    } else {
        Ok(
            (if loss.has_metadata {
                seq![FormatWarning::OmittedMetadata]
            } else {
                seq![]
            }) + (if loss.frame_count > 1 {
                seq![FormatWarning::OmittedFrames { exported: frame }]
            } else {
                seq![]
            }) + (if loss.selection_active {
                seq![FormatWarning::OmittedSelection]
            } else {
                seq![]
            }),
        )
    }
}

/// The plan of an export, as frame, warnings, JPEG quality and losslessness;
/// or the error that refuses it. The options are checked first, then the
/// frame (the current one unless the options pick one) must exist; the
/// project format keeps everything and picks no frame, raster formats lose
/// what `raster_loss_spec` lists, ORA loses document-level data and what
/// each node loses, and SVG loses document-level data (the node writer adds
/// its own warnings after these).
pub open spec fn export_plan_spec(
    options: ExportOptionsView,
    format: FileFormat,
    current: FrameId,
    frames: Seq<Frame>,
    loss: RasterExportLoss,
    nodes: Seq<ExportNode>,
) -> Result<(FrameId, Seq<FormatWarning>, Option<u8>, bool), CoreError> {
    let frame = match options.frame {
        Some(f) => f,
        None => current,
    };
    if !(1 <= options.jpeg_quality <= 100) {
        Err(CoreError::Format(FormatError::InvalidOption("JPEG quality must be in 1..=100")))
    } else if options.alpha_policy matches AlphaPolicy::Flatten { matte } && matte.a != 255 {
        Err(CoreError::Format(FormatError::InvalidOption("JPEG matte must be opaque")))
    } else if !has_frame(frames, frame) {
        Err(CoreError::FrameNotFound(frame))
    } else {
        match format {
            FileFormat::Rrg => if options.frame is Some {
                Err(CoreError::Format(FormatError::InvalidOption("RRG export does not select a frame")))
            } else {
                Ok((frame, seq![], None, true))
            },
            FileFormat::Png | FileFormat::WebP | FileFormat::Jpeg => match raster_loss_spec(
                loss,
                frame,
                options.loss_policy,
            ) {
                Err(m) => Err(CoreError::Format(FormatError::LossRequired(m))),
                Ok(warnings) => if format == FileFormat::Jpeg {
                    Ok((frame, warnings, Some(options.jpeg_quality), false))
                } else {
                    Ok((frame, warnings, None, true))
                },
            },
            FileFormat::Ora => match layered_loss_spec(
                loss,
                frame,
                options.loss_policy,
                "ORA export omits other frames",
                "ORA export omits selection",
            ) {
                Err(m) => Err(CoreError::Format(FormatError::LossRequired(m))),
                Ok(warnings) => match nodes_loss(nodes, options.loss_policy, nodes.len() as int).1 {
                    Some(e) => Err(e),
                    None => Ok(
                        (
                            frame,
                            warnings + nodes_loss(nodes, options.loss_policy, nodes.len() as int).0,
                            None,
                            true,
                        ),
                    ),
                },
            },
            FileFormat::Svg => match layered_loss_spec(
                loss,
                frame,
                options.loss_policy,
                "SVG export omits other frames",
                "SVG export omits selection",
            ) {
                Err(m) => Err(CoreError::Format(FormatError::LossRequired(m))),
                Ok(warnings) => Ok((frame, warnings, None, true)),
            },
        }
    }
}

fn layered_loss(
    loss: &RasterExportLoss,
    frame: FrameId,
    policy: LossPolicy,
    frames_message: &'static str,
    selection_message: &'static str,
) -> (r: Result<Vec<FormatWarning>, CoreError>)
    ensures
        match layered_loss_spec(*loss, frame, policy, frames_message, selection_message) {
            Ok(expected) => r matches Ok(warnings) && warnings@ == expected,
            Err(message) => r == Err::<Vec<FormatWarning>, CoreError>(
                CoreError::Format(FormatError::LossRequired(message)),
            ),
        },
{
    let reject = match policy {
        LossPolicy::RejectLoss => true,
        LossPolicy::AllowLoss => false,
    };
    let mut warnings: Vec<FormatWarning> = Vec::new();
    if loss.has_metadata {
        if reject {
            return Err(
                CoreError::Format(
                    FormatError::LossRequired("target format cannot preserve document metadata"),
                ),
            );
        }
        warnings.push(FormatWarning::OmittedMetadata);
    }
    if loss.frame_count > 1 {
        if reject {
            return Err(CoreError::Format(FormatError::LossRequired(frames_message)));
        }
        warnings.push(FormatWarning::OmittedFrames { exported: frame });
    }
    if loss.selection_active {
        if reject {
            return Err(CoreError::Format(FormatError::LossRequired(selection_message)));
        }
        warnings.push(FormatWarning::OmittedSelection);
    }
    proof {
        if !reject {
            let a: Seq<FormatWarning> = if loss.has_metadata { seq![FormatWarning::OmittedMetadata] } else { seq![] };
            let b: Seq<FormatWarning> = if loss.frame_count > 1 { seq![FormatWarning::OmittedFrames { exported: frame }] } else { seq![] };
            let c: Seq<FormatWarning> = if loss.selection_active { seq![FormatWarning::OmittedSelection] } else { seq![] };
            assert(warnings@ =~= a + b + c);
        } else {
            assert(warnings@ =~= Seq::<FormatWarning>::empty());
        }
    }
    Ok(warnings)
}

/// Decides an export before any pixels are encoded: checks the options,
/// picks the frame, and gathers the warnings for what the format loses, or
/// refuses. `timeline` is the document's, `loss` describes the document,
/// and `nodes` lists its nodes for ORA.
pub fn export_plan(
    options: &ExportOptions,
    format: FileFormat,
    timeline: &Timeline,
    loss: &RasterExportLoss,
    nodes: &[ExportNode],
) -> (r: Result<ExportPlan, CoreError>)
    ensures
        match export_plan_spec(
            options@,
            format,
            timeline@.current_frame,
            timeline@.frames,
            *loss,
            nodes@,
        ) {
            Ok((frame, warnings, quality, lossless)) => r matches Ok(plan) && plan.frame == frame
                && plan.warnings@ == warnings && plan.jpeg_quality == quality && plan.lossless
                == lossless,
            Err(e) => r == Err::<ExportPlan, CoreError>(e),
        },
{
    match options.validate() {
        Ok(()) => {},
        Err(e) => return Err(CoreError::Format(e)),
    }
    let frame = match options.frame() {
        Some(f) => f,
        None => timeline.current_frame(),
    };
    if !timeline.contains(frame) {
        return Err(CoreError::FrameNotFound(frame));
    }
    let policy = options.loss_policy();
    match format {
        FileFormat::Rrg => {
            if options.frame().is_some() {
                return Err(
                    CoreError::Format(FormatError::InvalidOption("RRG export does not select a frame")),
                );
            }
            Ok(ExportPlan { frame, warnings: Vec::new(), jpeg_quality: None, lossless: true })
        },
        FileFormat::Png | FileFormat::WebP => {
            let warnings = match raster_loss_warnings(loss, frame, policy) {
                Ok(w) => w,
                Err(e) => return Err(e),
            };
            Ok(ExportPlan { frame, warnings, jpeg_quality: None, lossless: true })
        },
        FileFormat::Jpeg => {
            let warnings = match raster_loss_warnings(loss, frame, policy) {
                Ok(w) => w,
                Err(e) => return Err(e),
            };
            Ok(ExportPlan { frame, warnings, jpeg_quality: Some(options.jpeg_quality()), lossless: false })
        },
        FileFormat::Ora => {
            let mut warnings = match layered_loss(
                loss,
                frame,
                policy,
                "ORA export omits other frames",
                "ORA export omits selection",
            ) {
                Ok(w) => w,
                Err(e) => return Err(e),
            };
            match preflight_nodes(nodes, policy, &mut warnings) {
                Ok(()) => {},
                Err(e) => return Err(e),
            }
            Ok(ExportPlan { frame, warnings, jpeg_quality: None, lossless: true })
        },
        FileFormat::Svg => {
            let warnings = match layered_loss(
                loss,
                frame,
                policy,
                "SVG export omits other frames",
                "SVG export omits selection",
            ) {
                Ok(w) => w,
                Err(e) => return Err(e),
            };
            Ok(ExportPlan { frame, warnings, jpeg_quality: None, lossless: true })
        },
    }
}

/// Whether one of the whole pixels of an RGBA buffer is not opaque.
pub open spec fn has_translucent_pixel(pixels: Seq<u8>) -> bool {
    exists|p: int| 0 <= p < pixels.len() / 4 && #[trigger] pixels[4 * p + 3] != 255
}

/// The warning a JPEG export adds when it flattens translucent pixels onto
/// the matte of its options.
pub open spec fn flatten_warning_spec(pixels: Seq<u8>, format: FileFormat, alpha: AlphaPolicy) -> Option<
    FormatWarning,
> {
    match alpha {
        AlphaPolicy::Flatten { matte } => if format == FileFormat::Jpeg && has_translucent_pixel(
            pixels,
        ) {
            Some(FormatWarning::FlattenedAlpha { matte })
        } else {
            None
        },
        AlphaPolicy::RejectNonOpaque => None,
    }
}

/// The warning a JPEG export of these pixels adds, if any: flattening onto
/// the matte when some pixel is not opaque.
pub fn flatten_warning(pixels: &[u8], format: FileFormat, options: &ExportOptions) -> (r: Option<
    FormatWarning,
>)
    ensures
        r == flatten_warning_spec(pixels@, format, options@.alpha_policy),
{
    let matte = match options.alpha_policy() {
        AlphaPolicy::Flatten { matte } => matte,
        AlphaPolicy::RejectNonOpaque => return None,
    };
    match format {
        FileFormat::Jpeg => {},
        _ => return None,
    }
    let len = pixels.len();
    let count = len / 4;
    let mut p: usize = 0;
    while p < count
        invariant
            len == pixels@.len(),
            count == pixels@.len() / 4,
            p <= count,
            format == FileFormat::Jpeg,
            options@.alpha_policy == (AlphaPolicy::Flatten { matte }),
            forall|q: int| 0 <= q < p ==> #[trigger] pixels@[4 * q + 3] == 255,
        decreases count - p,
    {
        assert(4 * p + 3 < len) by (nonlinear_arith)
            requires
                p < count,
                count == len / 4,
        ;
        if pixels[4 * p + 3] != 255 {
            proof {
                assert(pixels@[4 * (p as int) + 3] != 255);
                assert(has_translucent_pixel(pixels@));
            }
            return Some(FormatWarning::FlattenedAlpha { matte });
        }
        p = p + 1;
    }
    None
}

/// One colour channel flattened onto the matte: straight-alpha blending
/// with rounding to nearest.
pub open spec fn flattened_channel(value: u8, alpha: u8, matte: u8) -> int {
    (value * alpha + matte * (255 - alpha) + 127) / 255
}

/// Byte `k` of the RGB data a JPEG encoder receives for the first `n` whole
/// pixels: each pixel's colour, flattened onto the matte when there is one.
pub open spec fn jpeg_rgb_spec(pixels: Seq<u8>, alpha: AlphaPolicy, n: int) -> Seq<u8> {
    Seq::new(
        (3 * n) as nat,
        |k: int|
            {
                let p = k / 3;
                let c = k % 3;
                let value = pixels[4 * p + c];
                match alpha {
                    AlphaPolicy::RejectNonOpaque => value,
                    AlphaPolicy::Flatten { matte } => {
                        let m = if c == 0 {
                            matte.r
                        } else if c == 1 {
                            matte.g
                        } else {
                            matte.b
                        };
                        flattened_channel(value, pixels[4 * p + 3], m) as u8
                    },
                }
            },
    )
}

fn flatten_channel(value: u8, alpha: u8, matte: u8) -> (r: u8)
    ensures
        r == flattened_channel(value, alpha, matte),
{
    let v = value as u32;
    let a = alpha as u32;
    let m = matte as u32;
    assert(v * a + m * (255 - a) <= 255 * 255) by (nonlinear_arith)
        requires
            v <= 255,
            a <= 255,
            m <= 255,
    ;
    let total = v * a + m * (255 - a) + 127;
    assert(total / 255 <= 255) by (nonlinear_arith)
        requires
            total <= 255 * 255 + 127,
    ;
    (total / 255) as u8
}

/// The RGB data a JPEG encoder receives: under `RejectNonOpaque` every
/// pixel must be opaque and loses only its alpha; under `Flatten` every
/// pixel is blended onto the opaque matte. A trailing partial pixel is
/// dropped.
pub fn jpeg_rgb(pixels: &[u8], options: &ExportOptions) -> (r: Result<Vec<u8>, CoreError>)
    ensures
        options@.alpha_policy is RejectNonOpaque && has_translucent_pixel(pixels@) ==> r == Err::<
            Vec<u8>,
            CoreError,
        >(
            CoreError::Format(
                FormatError::LossRequired(
                    "JPEG requires RejectNonOpaque input or an explicit opaque matte",
                ),
            ),
        ),
        !(options@.alpha_policy is RejectNonOpaque && has_translucent_pixel(pixels@)) ==> (r matches Ok(
            rgb,
        ) && rgb@ == jpeg_rgb_spec(pixels@, options@.alpha_policy, (pixels@.len() / 4) as int)),
{
    let alpha = options.alpha_policy();
    let len = pixels.len();
    let count = len / 4;
    let mut rgb: Vec<u8> = Vec::new();
    let mut p: usize = 0;
    while p < count
        invariant
            len == pixels@.len(),
            count == pixels@.len() / 4,
            alpha == options@.alpha_policy,
            p <= count,
            rgb@ == jpeg_rgb_spec(pixels@, alpha, p as int),
            alpha is RejectNonOpaque ==> forall|q: int| 0 <= q < p ==> #[trigger] pixels@[4 * q + 3] == 255,
        decreases count - p,
    {
        assert(4 * p + 3 < len) by (nonlinear_arith)
            requires
                p < count,
                count == len / 4,
        ;
        let base = 4 * p;
        let a = pixels[base + 3];
        let (r, g, b) = match alpha {
            AlphaPolicy::RejectNonOpaque => {
                if a != 255 {
                    return Err(
                        CoreError::Format(
                            FormatError::LossRequired(
                                "JPEG requires RejectNonOpaque input or an explicit opaque matte",
                            ),
                        ),
                    );
                }
                (pixels[base], pixels[base + 1], pixels[base + 2])
            },
            AlphaPolicy::Flatten { matte } => (
                flatten_channel(pixels[base], a, matte.r),
                flatten_channel(pixels[base + 1], a, matte.g),
                flatten_channel(pixels[base + 2], a, matte.b),
            ),
        };
        rgb.push(r);
        rgb.push(g);
        rgb.push(b);
        proof {
            let next = jpeg_rgb_spec(pixels@, alpha, p + 1);
            assert forall|k: int| 0 <= k < 3 * (p + 1) implies #[trigger] rgb@[k] == next[k] by {
                if k >= 3 * p {
                    assert(k / 3 == p && k % 3 == k - 3 * p) by (nonlinear_arith)
                        requires
                            3 * p <= k < 3 * (p + 1),
                    ;
                } else {
                    assert(rgb@[k] == jpeg_rgb_spec(pixels@, alpha, p as int)[k]);
                }
            }
            assert(rgb@ =~= next);
        }
        p = p + 1;
    }
    Ok(rgb)
}

} // verus!
