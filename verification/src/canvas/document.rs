//! Document value types: identifiers, pixels, rectangles, frames, cels,
//! masks, and the bounded semantic-usage accounting.

use std::collections::BTreeMap;

use vstd::prelude::*;

use crate::canvas::error::CoreError;
use crate::canvas::raster::RasterBytes;
use vstd::string::{StrSliceExecFns, StringExecFns};

use crate::text::{byte_len, push_chars, text_of_encoding, utf8_len};

verus! {

pub const MAX_NODES: usize = 4_096;
pub const MAX_HIERARCHY_DEPTH: usize = 256;
pub const MAX_FRAMES: usize = 10_000;
pub const MAX_STORED_RASTER_BYTES: u64 = 1024 * 1024 * 1024;
pub const MAX_TEXT_BYTES: usize = 1024 * 1024;
pub const MAX_TEXT_CONTENT_BYTES: usize = 256 * 1024;
pub const MAX_FONT_FAMILY_BYTES: usize = 256;
pub const MAX_FONT_ID_BYTES: usize = 128;
pub const MAX_VECTOR_PATHS: usize = 4_096;
pub const MAX_PATH_COMMANDS: usize = 1_000_000;
pub const MAX_PATH_COMMANDS_PER_PATH: usize = 65_536;
pub const MAX_SEMANTIC_MEMORY_BYTES: usize = 64 * 1024 * 1024;
pub const MAX_METADATA_ENTRIES: usize = 4_096;
pub const MAX_METADATA_BYTES: usize = 1024 * 1024;
pub const MAX_NODE_NAME_BYTES: usize = 4_096;
pub const MAX_FRAME_DURATION_MS: u32 = 86_400_000;
pub const MAX_DIMENSION: u32 = 32_768;
pub const MAX_PIXELS: u64 = 64 * 1024 * 1024;

/// Whether a canvas of these dimensions is supported.
pub open spec fn valid_dimensions(width: u32, height: u32) -> bool {
    &&& width > 0
    &&& height > 0
    &&& width <= MAX_DIMENSION
    &&& height <= MAX_DIMENSION
    &&& width * height <= MAX_PIXELS
}

/// Number of pixels of a supported canvas; other dimensions are rejected.
pub fn pixel_count(width: u32, height: u32) -> (r: Result<usize, CoreError>)
    ensures
        valid_dimensions(width, height) ==> r == Ok::<usize, CoreError>((width * height) as usize),
        !valid_dimensions(width, height) ==> (r matches Err(
            CoreError::InvalidDimensions { width: w, height: h },
        ) && w == width && h == height),
{
    if width == 0 || height == 0 || width > MAX_DIMENSION || height > MAX_DIMENSION {
        return Err(CoreError::InvalidDimensions { width, height });
    }
    assert(width * height <= MAX_DIMENSION * MAX_DIMENSION) by (nonlinear_arith)
        requires
            width <= MAX_DIMENSION,
            height <= MAX_DIMENSION,
    ;
    let count = (width as u64) * (height as u64);
    if count > MAX_PIXELS {
        return Err(CoreError::InvalidDimensions { width, height });
    }
    Ok(count as usize)
}

/// A stable node identifier: the 128 bits of a UUID.
#[derive(Clone, Copy, Debug, PartialEq, Eq, Hash, PartialOrd, Ord)]
pub struct LayerId(pub u128);

/// Stable identifier for any document node.
pub type NodeId = LayerId;

impl LayerId {
    pub fn from_u128(bits: u128) -> (id: Self)
        ensures
            id.0 == bits,
    {
        LayerId(bits)
    }

    pub fn as_u128(self) -> (bits: u128)
        ensures
            bits == self.0,
    {
        self.0
    }

    /// The identifier in UUID notation: 32 lowercase hexadecimal digits,
    /// most significant first, in groups of 8, 4, 4, 4 and 12 joined by
    /// hyphens.
    pub fn to_string(&self) -> (text: String)
        ensures
            text@ == uuid_text(self.0),
    {
        let bits = self.0;
        let mut chars: Vec<char> = Vec::new();
        let mut i: usize = 0;
        while i < 36
            invariant
                i <= 36,
                bits == self.0,
                chars@ == uuid_text(bits).take(i as int),
            decreases 36 - i,
        {
            let c = if i == 8 || i == 13 || i == 18 || i == 23 {
                '-'
            } else {
                let k: u32 = if i < 8 {
                    i as u32
                } else if i < 13 {
                    (i - 1) as u32
                } else if i < 18 {
                    (i - 2) as u32
                } else if i < 23 {
                    (i - 3) as u32
                } else {
                    (i - 4) as u32
                };
                let shift: u32 = 124 - 4 * k;
                let digit: u128 = (bits >> shift) & 15;
                assert(digit < 16) by (bit_vector)
                    requires
                        digit == (bits >> shift) & 15,
                ;
                let d = digit as u8;
                if d < 10 {
                    (48 + d) as char
                } else {
                    (87 + d) as char
                }
            };
            chars.push(c);
            proof {
                assert(uuid_text(bits).take(i + 1) =~= uuid_text(bits).take(i as int).push(c));
            }
            i = i + 1;
        }
        proof {
            assert(uuid_text(bits).take(36) =~= uuid_text(bits));
        }
        let mut out: Vec<u8> = Vec::new();
        push_chars(&mut out, chars.as_slice());
        text_of_encoding(out, Ghost(uuid_text(bits)))
    }
}

/// Which hexadecimal digit, counted from the most significant, position
/// `i` of the UUID notation shows; hyphens stand at positions 8, 13, 18
/// and 23.
pub open spec fn uuid_digit_index(i: int) -> int {
    if i < 8 {
        i
    } else if i < 13 {
        i - 1
    } else if i < 18 {
        i - 2
    } else if i < 23 {
        i - 3
    } else {
        i - 4
    }
}

/// The lowercase hexadecimal digit for `d`.
pub open spec fn hex_char(d: u128) -> char {
    if d < 10 {
        ((48 + d) as u8) as char
    } else {
        ((87 + d) as u8) as char
    }
}

/// UUID notation of 128 bits, as the `uuid` crate displays a UUID.
pub open spec fn uuid_text(bits: u128) -> Seq<char> {
    Seq::new(
        36,
        |i: int|
            if i == 8 || i == 13 || i == 18 || i == 23 {
                '-'
            } else {
                hex_char((bits >> ((124 - 4 * uuid_digit_index(i)) as u32)) & 15)
            },
    )
}

/// Stable timeline frame identifier.
#[derive(Clone, Copy, Debug, PartialEq, Eq, Structural, Hash, PartialOrd, Ord)]
pub struct FrameId(pub u32);

impl Default for FrameId {
    /// The first frame of every new document.
    fn default() -> (id: Self)
        ensures
            id.0 == 0,
    {
        FrameId(0)
    }
}

impl FrameId {
    pub fn new(value: u32) -> (id: Self)
        ensures
            id.0 == value,
    {
        FrameId(value)
    }

    pub fn get(self) -> (value: u32)
        ensures
            value == self.0,
    {
        self.0
    }
}

/// Descriptive document metadata: a title, an author and free-form
/// properties.
#[derive(Clone, Debug, PartialEq, Eq)]
pub struct DocumentMetadata {
    pub title: String,
    pub author: Option<String>,
    pub properties: BTreeMap<String, String>,
}

impl Default for DocumentMetadata {
    fn default() -> (metadata: Self)
        ensures
            metadata.title@.len() == 0,
            metadata.author is None,
            metadata.properties@ == Map::<String, String>::empty(),
    {
        DocumentMetadata { title: String::new(), author: None, properties: BTreeMap::new() }
    }
}

impl DocumentMetadata {
    /// Whether anything differs from the default, empty metadata: a title,
    /// an author or a property.
    pub fn has_content(&self) -> (r: bool)
        ensures
            r == !(self.title@.len() == 0 && self.author is None && self.properties@.is_empty()),
    {
        !(self.title.as_str().unicode_len() == 0 && self.author.is_none() && self.properties.is_empty())
    }
}

/// An eight-bit, straight-alpha RGBA pixel.
#[derive(Clone, Copy, Debug, PartialEq, Eq)]
pub struct Pixel {
    pub r: u8,
    pub g: u8,
    pub b: u8,
    pub a: u8,
}

impl Default for Pixel {
    /// The fully transparent black pixel.
    fn default() -> (p: Self)
        ensures
            p == (Pixel { r: 0, g: 0, b: 0, a: 0 }),
    {
        Pixel { r: 0, g: 0, b: 0, a: 0 }
    }
}

impl Pixel {
    /// The fully transparent black pixel.
    pub fn transparent() -> (p: Self)
        ensures
            p == (Pixel { r: 0, g: 0, b: 0, a: 0 }),
    {
        Pixel { r: 0, g: 0, b: 0, a: 0 }
    }

    pub fn rgba(r: u8, g: u8, b: u8, a: u8) -> (p: Self)
        ensures
            p == (Pixel { r, g, b, a }),
    {
        Pixel { r, g, b, a }
    }

    /// The pixel stored in the first four bytes.
    pub fn from_slice(bytes: &[u8]) -> (p: Self)
        requires
            bytes@.len() >= 4,
        ensures
            p == (Pixel { r: bytes@[0], g: bytes@[1], b: bytes@[2], a: bytes@[3] }),
    {
        Pixel { r: bytes[0], g: bytes[1], b: bytes[2], a: bytes[3] }
    }
}

/// A rectangle in canvas coordinates.
#[derive(Clone, Copy, Debug, Default, PartialEq, Eq)]
pub struct Rect {
    pub x: i32,
    pub y: i32,
    pub width: u32,
    pub height: u32,
}

/// `value` limited to `0..=max`.
pub open spec fn clamp_to(value: int, max: int) -> int {
    if value < 0 {
        0
    } else if value > max {
        max
    } else {
        value
    }
}

impl Rect {
    pub fn new(x: i32, y: i32, width: u32, height: u32) -> (rect: Self)
        ensures
            rect == (Rect { x, y, width, height }),
    {
        Rect { x, y, width, height }
    }

    /// The part of the rectangle inside a canvas, as half-open pixel bounds
    /// `(x0, y0, x1, y1)`, or `None` when nothing is inside.
    pub open spec fn clipped_spec(self, canvas_width: u32, canvas_height: u32) -> Option<
        (int, int, int, int),
    > {
        let x0 = clamp_to(self.x as int, canvas_width as int);
        let y0 = clamp_to(self.y as int, canvas_height as int);
        let x1 = clamp_to(self.x + self.width, canvas_width as int);
        let y1 = clamp_to(self.y + self.height, canvas_height as int);
        if x0 < x1 && y0 < y1 {
            Some((x0, y0, x1, y1))
        } else {
            None
        }
    }

    pub fn clipped_bounds(self, canvas_width: u32, canvas_height: u32) -> (r: Option<
        (u32, u32, u32, u32),
    >)
        ensures
            match self.clipped_spec(canvas_width, canvas_height) {
                Some((x0, y0, x1, y1)) => r == Some(
                    (x0 as u32, y0 as u32, x1 as u32, y1 as u32),
                ),
                None => r is None,
            },
    {
        let x0 = clamp_i64(self.x as i64, canvas_width as i64);
        let y0 = clamp_i64(self.y as i64, canvas_height as i64);
        let x1 = clamp_i64(self.x as i64 + self.width as i64, canvas_width as i64);
        let y1 = clamp_i64(self.y as i64 + self.height as i64, canvas_height as i64);
        if x0 < x1 && y0 < y1 {
            Some((x0 as u32, y0 as u32, x1 as u32, y1 as u32))
        } else {
            None
        }
    }
}

fn clamp_i64(value: i64, max: i64) -> (r: i64)
    requires
        max >= 0,
    ensures
        r == clamp_to(value as int, max as int),
{
    if value < 0 {
        0
    } else if value > max {
        max
    } else {
        value
    }
}

/// Layer blend function.
#[derive(Clone, Copy, Debug, Default, PartialEq, Eq)]
pub enum BlendMode {
    #[default]
    Normal,
    Multiply,
    Screen,
    Overlay,
    Add,
}

/// Coarse node kind, independent of a node's payload.
#[derive(Clone, Copy, Debug, PartialEq, Eq)]
pub enum NodeKind {
    Raster,
    Group,
    Text,
    Vector,
}

/// Deterministic path winding rule.
#[derive(Clone, Copy, Debug, Default, PartialEq, Eq)]
pub enum FillRule {
    #[default]
    NonZero,
    EvenOdd,
}

/// Pixel reconstruction used by raster transforms.
#[derive(Clone, Copy, Debug, Default, PartialEq, Eq)]
pub enum SamplingMode {
    #[default]
    Nearest,
    Bilinear,
}

/// Deterministic preprocessing applied to brush samples.
#[derive(Clone, Copy, Debug, Default, PartialEq, Eq)]
pub enum BrushSmoothing {
    #[default]
    Off,
    MovingAverage { window: u8 },
}

/// One frame in a document timeline.
#[derive(Clone, Copy, Debug, PartialEq, Eq)]
pub struct Frame {
    pub id: FrameId,
    pub duration_ms: u32,
}

impl Frame {
    pub fn new(id: FrameId, duration_ms: u32) -> (frame: Self)
        ensures
            frame == (Frame { id, duration_ms }),
    {
        Frame { id, duration_ms }
    }

    pub fn id(self) -> (id: FrameId)
        ensures
            id == self.id,
    {
        self.id
    }

    pub fn duration_ms(self) -> (ms: u32)
        ensures
            ms == self.duration_ms,
    {
        self.duration_ms
    }
}

impl Default for Frame {
    fn default() -> (frame: Self)
        ensures
            frame == (Frame { id: FrameId(0), duration_ms: 100 }),
    {
        Frame { id: FrameId(0), duration_ms: 100 }
    }
}

/// Playback range and playback state.
#[derive(Clone, Copy, Debug, PartialEq, Eq)]
pub struct PlaybackMetadata {
    pub range_start: FrameId,
    pub range_end: FrameId,
    pub looping: bool,
    pub playing: bool,
}

impl Default for PlaybackMetadata {
    fn default() -> (playback: Self)
        ensures
            playback == (PlaybackMetadata {
                range_start: FrameId(0),
                range_end: FrameId(0),
                looping: false,
                playing: false,
            }),
    {
        PlaybackMetadata {
            range_start: FrameId(0),
            range_end: FrameId(0),
            looping: false,
            playing: false,
        }
    }
}

/// Optional 8-bit node mask with clone-on-write storage.
#[derive(Clone, Debug)]
pub struct RasterMask {
    pub enabled: bool,
    pub pixels: RasterBytes,
}

impl RasterMask {
    pub fn new(pixels: Vec<u8>) -> (mask: Self)
        ensures
            mask.enabled,
            mask.pixels@ == pixels@,
    {
        RasterMask { enabled: true, pixels: RasterBytes::new(pixels) }
    }

    pub fn is_enabled(&self) -> (r: bool)
        ensures
            r == self.enabled,
    {
        self.enabled
    }

    pub fn pixels(&self) -> (r: &[u8])
        ensures
            r@ == self.pixels@,
    {
        self.pixels.as_slice()
    }

    pub fn storage(&self) -> (r: &RasterBytes)
        ensures
            r@ == self.pixels@,
    {
        &self.pixels
    }
}

/// Raster pixels associated with one timeline frame.
#[derive(Clone, Debug)]
pub struct RasterCel {
    pub frame: FrameId,
    pub pixels: RasterBytes,
}

impl RasterCel {
    pub fn new(frame: FrameId, pixels: Vec<u8>) -> (cel: Self)
        ensures
            cel.frame == frame,
            cel.pixels@ == pixels@,
    {
        RasterCel { frame, pixels: RasterBytes::new(pixels) }
    }

    pub fn frame(&self) -> (frame: FrameId)
        ensures
            frame == self.frame,
    {
        self.frame
    }

    pub fn pixels(&self) -> (r: &[u8])
        ensures
            r@ == self.pixels@,
    {
        self.pixels.as_slice()
    }

    pub fn storage(&self) -> (r: &RasterBytes)
        ensures
            r@ == self.pixels@,
    {
        &self.pixels
    }
}

/// Detached raster-mask description for atomic document import.
#[derive(Clone, Debug, PartialEq, Eq)]
pub struct ImportMask {
    pub enabled: bool,
    pub pixels: Vec<u8>,
}

impl ImportMask {
    pub fn new(pixels: Vec<u8>) -> (mask: Self)
        ensures
            mask.enabled,
            mask.pixels@ == pixels@,
    {
        ImportMask { enabled: true, pixels }
    }

    pub fn disabled(pixels: Vec<u8>) -> (mask: Self)
        ensures
            !mask.enabled,
            mask.pixels@ == pixels@,
    {
        ImportMask { enabled: false, pixels }
    }
}


/// Aggregate semantic payload complexity of a document.
#[derive(Clone, Copy, Debug, Default, PartialEq, Eq)]
pub struct SemanticUsage {
    pub text_bytes: usize,
    pub vector_paths: usize,
    pub path_commands: usize,
    pub memory_bytes: usize,
}

/// The limit-checked sum of two usages, with the first overflowing
/// component naming the error.
pub open spec fn usage_sum(a: SemanticUsage, b: SemanticUsage) -> Result<SemanticUsage, &'static str> {
    if a.text_bytes + b.text_bytes > usize::MAX {
        Err("text complexity")
    } else if a.vector_paths + b.vector_paths > usize::MAX {
        Err("vector path count")
    } else if a.path_commands + b.path_commands > usize::MAX {
        Err("vector command complexity")
    } else if a.memory_bytes + b.memory_bytes > usize::MAX {
        Err("semantic memory bytes")
    } else {
        Ok(
            SemanticUsage {
                text_bytes: (a.text_bytes + b.text_bytes) as usize,
                vector_paths: (a.vector_paths + b.vector_paths) as usize,
                path_commands: (a.path_commands + b.path_commands) as usize,
                memory_bytes: (a.memory_bytes + b.memory_bytes) as usize,
            },
        )
    }
}

/// Whether every component of `b` is at most that of `a`.
pub open spec fn usage_covers(a: SemanticUsage, b: SemanticUsage) -> bool {
    &&& b.text_bytes <= a.text_bytes
    &&& b.vector_paths <= a.vector_paths
    &&& b.path_commands <= a.path_commands
    &&& b.memory_bytes <= a.memory_bytes
}

/// The component-wise difference, when no component underflows.
pub open spec fn usage_difference(a: SemanticUsage, b: SemanticUsage) -> SemanticUsage {
    SemanticUsage {
        text_bytes: (a.text_bytes - b.text_bytes) as usize,
        vector_paths: (a.vector_paths - b.vector_paths) as usize,
        path_commands: (a.path_commands - b.path_commands) as usize,
        memory_bytes: (a.memory_bytes - b.memory_bytes) as usize,
    }
}

/// Whether a usage is within the document-wide semantic limits.
pub open spec fn usage_within_limits(u: SemanticUsage) -> bool {
    &&& u.text_bytes <= MAX_TEXT_BYTES
    &&& u.vector_paths <= MAX_VECTOR_PATHS
    &&& u.path_commands <= MAX_PATH_COMMANDS
    &&& u.memory_bytes <= MAX_SEMANTIC_MEMORY_BYTES
}

impl SemanticUsage {
    pub fn checked_add(self, other: Self) -> (r: Result<Self, CoreError>)
        ensures
            match usage_sum(self, other) {
                Ok(sum) => r == Ok::<SemanticUsage, CoreError>(sum),
                Err(label) => r matches Err(CoreError::DocumentLimitExceeded(l)) && l == label,
            },
    {
        let text_bytes = match self.text_bytes.checked_add(other.text_bytes) {
            Some(v) => v,
            None => return Err(CoreError::DocumentLimitExceeded("text complexity")),
        };
        let vector_paths = match self.vector_paths.checked_add(other.vector_paths) {
            Some(v) => v,
            None => return Err(CoreError::DocumentLimitExceeded("vector path count")),
        };
        let path_commands = match self.path_commands.checked_add(other.path_commands) {
            Some(v) => v,
            None => return Err(CoreError::DocumentLimitExceeded("vector command complexity")),
        };
        let memory_bytes = match self.memory_bytes.checked_add(other.memory_bytes) {
            Some(v) => v,
            None => return Err(CoreError::DocumentLimitExceeded("semantic memory bytes")),
        };
        Ok(SemanticUsage { text_bytes, vector_paths, path_commands, memory_bytes })
    }

    pub fn checked_sub(self, other: Self) -> (r: Result<Self, CoreError>)
        ensures
            usage_covers(self, other) ==> r == Ok::<SemanticUsage, CoreError>(
                usage_difference(self, other),
            ),
            !usage_covers(self, other) ==> (r matches Err(CoreError::MalformedProject(m)) && m@
                == "semantic usage underflow"@),
    {
        if other.text_bytes > self.text_bytes || other.vector_paths > self.vector_paths
            || other.path_commands > self.path_commands || other.memory_bytes
            > self.memory_bytes {
            return Err(CoreError::MalformedProject(String::from_str("semantic usage underflow")));
        }
        Ok(
            SemanticUsage {
                text_bytes: self.text_bytes - other.text_bytes,
                vector_paths: self.vector_paths - other.vector_paths,
                path_commands: self.path_commands - other.path_commands,
                memory_bytes: self.memory_bytes - other.memory_bytes,
            },
        )
    }
}

/// The projected usage after replacing `removed` with `added`, or the error
/// naming the first limit it breaks.
pub open spec fn replacement_spec(
    current: SemanticUsage,
    removed: SemanticUsage,
    added: SemanticUsage,
) -> Result<SemanticUsage, &'static str> {
    match usage_sum(usage_difference(current, removed), added) {
        Err(label) => Err(label),
        Ok(p) => if p.text_bytes > MAX_TEXT_BYTES {
            Err("text complexity")
        } else if p.vector_paths > MAX_VECTOR_PATHS {
            Err("vector path count")
        } else if p.path_commands > MAX_PATH_COMMANDS {
            Err("vector command complexity")
        } else if p.memory_bytes > MAX_SEMANTIC_MEMORY_BYTES {
            Err("semantic memory bytes")
        } else {
            Ok(p)
        },
    }
}

/// Admits replacing `removed` semantic content with `added` when the
/// projected document-wide usage stays within every limit.
pub fn admit_semantic_replacement(
    current: SemanticUsage,
    removed: SemanticUsage,
    added: SemanticUsage,
) -> (r: Result<SemanticUsage, CoreError>)
    ensures
        !usage_covers(current, removed) ==> (r matches Err(CoreError::MalformedProject(m)) && m@
            == "semantic usage underflow"@),
        usage_covers(current, removed) ==> match replacement_spec(current, removed, added) {
            Ok(p) => r == Ok::<SemanticUsage, CoreError>(p) && usage_within_limits(p),
            Err(label) => r matches Err(CoreError::DocumentLimitExceeded(l)) && l == label,
        },
{
    let remaining = match current.checked_sub(removed) {
        Ok(u) => u,
        Err(e) => return Err(e),
    };
    let projected = match remaining.checked_add(added) {
        Ok(u) => u,
        Err(e) => return Err(e),
    };
    if projected.text_bytes > MAX_TEXT_BYTES {
        return Err(CoreError::DocumentLimitExceeded("text complexity"));
    }
    if projected.vector_paths > MAX_VECTOR_PATHS {
        return Err(CoreError::DocumentLimitExceeded("vector path count"));
    }
    if projected.path_commands > MAX_PATH_COMMANDS {
        return Err(CoreError::DocumentLimitExceeded("vector command complexity"));
    }
    if projected.memory_bytes > MAX_SEMANTIC_MEMORY_BYTES {
        return Err(CoreError::DocumentLimitExceeded("semantic memory bytes"));
    }
    Ok(projected)
}

/// Copies the part of an `old_width` x `old_height` image with `channels`
/// bytes per pixel that lies under `rect` into a new `rect`-sized image;
/// positions outside the old image become zero.
pub open spec fn crop_spec(input: Seq<u8>, old_width: int, old_height: int, rect: Rect, channels: int, i: int) -> u8 {
    let pixel = i / channels;
    let channel = i % channels;
    let x = pixel % (rect.width as int);
    let y = pixel / (rect.width as int);
    let sx = rect.x + x;
    let sy = rect.y + y;
    if y < rect.height && 0 <= sx < old_width && 0 <= sy < old_height {
        input[(sy * old_width + sx) * channels + channel]
    } else {
        0u8
    }
}

pub fn crop_bytes(
    input: &[u8],
    old_width: u32,
    old_height: u32,
    rect: Rect,
    channels: usize,
    output_pixels: usize,
) -> (output: Vec<u8>)
    requires
        input@.len() == old_width * old_height * channels,
        rect.width > 0,
        output_pixels == rect.width * rect.height,
        output_pixels * channels <= usize::MAX,
        0 < channels <= 4,
        old_width * old_height * channels <= usize::MAX,
    ensures
        output@.len() == output_pixels * channels,
        forall|i: int| 0 <= i < output@.len() ==> output@[i] == #[trigger] crop_spec(
            input@,
            old_width as int,
            old_height as int,
            rect,
            channels as int,
            i,
        ),
{
    let total = output_pixels * channels;
    let mut output: Vec<u8> = Vec::new();
    let w = rect.width as usize;
    let mut i: usize = 0;
    while i < total
        invariant
            i <= total,
            total == output_pixels * channels,
            output@.len() == i,
            w == rect.width,
            w > 0,
            0 < channels <= 4,
            output_pixels == rect.width * rect.height,
            input@.len() == old_width * old_height * channels,
            old_width * old_height * channels <= usize::MAX,
            forall|k: int| 0 <= k < i ==> output@[k] == #[trigger] crop_spec(
                input@,
                old_width as int,
                old_height as int,
                rect,
                channels as int,
                k,
            ),
        decreases total - i,
    {
        let pixel = i / channels;
        let channel = i % channels;
        let x = pixel % w;
        let y = pixel / w;
        assert(pixel < output_pixels) by (nonlinear_arith)
            requires
                i < output_pixels * channels,
                pixel == i / channels,
                channels > 0,
        ;
        assert(y < rect.height) by (nonlinear_arith)
            requires
                pixel < rect.width * rect.height,
                y == pixel / w,
                w == rect.width,
                rect.width > 0,
        ;
        let sx = rect.x as i64 + x as i64;
        let sy = rect.y as i64 + y as i64;
        let value = if sx >= 0 && sy >= 0 && sx < old_width as i64 && sy < old_height as i64 {
            let sxu = sx as usize;
            let syu = sy as usize;
            assert((syu * old_width + sxu) * channels + channel < old_width * old_height * channels
                && syu * old_width + sxu < old_width * old_height && syu * old_width <= syu
                * old_width + sxu && (syu * old_width + sxu) * channels <= (syu * old_width + sxu)
                * channels + channel && old_width * old_height <= old_width * old_height
                * channels) by (nonlinear_arith)
                requires
                    sxu < old_width,
                    syu < old_height,
                    channel < channels,
                    channels >= 1,
            ;
            let row = syu * (old_width as usize);
            let base = (row + sxu) * channels;
            input[base + channel]
        } else {
            0u8
        };
        output.push(value);
        i = i + 1;
    }
    output
}

/// Byte `i` of an RGBA image mirrored left to right (`horizontal`) and/or
/// top to bottom (`vertical`).
pub open spec fn flipped_spec(input: Seq<u8>, width: int, height: int, horizontal: bool, vertical: bool, i: int) -> u8 {
    let pixel = i / 4;
    let channel = i % 4;
    let x = pixel % width;
    let y = pixel / width;
    let sx = if horizontal {
        width - 1 - x
    } else {
        x
    };
    let sy = if vertical {
        height - 1 - y
    } else {
        y
    };
    input[(sy * width + sx) * 4 + channel]
}

/// Mirrors an RGBA image; at least one direction must be asked for.
pub fn flip_pixels(input: &[u8], width: u32, height: u32, horizontal: bool, vertical: bool) -> (r: Result<
    Vec<u8>,
    CoreError,
>)
    requires
        input@.len() == width * height * 4,
        width * height * 4 <= usize::MAX,
    ensures
        !horizontal && !vertical ==> r matches Err(CoreError::InvalidTransform),
        horizontal || vertical ==> (r matches Ok(output) && output@.len() == input@.len() && forall|
            i: int,
        |
            0 <= i < output@.len() ==> output@[i] == #[trigger] flipped_spec(
                input@,
                width as int,
                height as int,
                horizontal,
                vertical,
                i,
            )),
        r matches Ok(output) ==> output@ == flipped_image(
            input@,
            width as int,
            height as int,
            horizontal,
            vertical,
        ),
{
    if !horizontal && !vertical {
        return Err(CoreError::InvalidTransform);
    }
    let total = input.len();
    let w = width as usize;
    let h = height as usize;
    let mut output: Vec<u8> = Vec::with_capacity(total);
    let mut i: usize = 0;
    while i < total
        invariant
            i <= total,
            total == input@.len(),
            total == width * height * 4,
            w == width,
            h == height,
            output@.len() == i,
            forall|k: int| 0 <= k < i ==> output@[k] == #[trigger] flipped_spec(
                input@,
                width as int,
                height as int,
                horizontal,
                vertical,
                k,
            ),
        decreases total - i,
    {
        let pixel = i / 4;
        let channel = i % 4;
        assert(w > 0 && pixel < w * h) by (nonlinear_arith)
            requires
                i < w * h * 4,
                pixel == i / 4,
        ;
        let x = pixel % w;
        let y = pixel / w;
        assert(y < h) by (nonlinear_arith)
            requires
                pixel < w * h,
                y == pixel / w,
                w > 0,
        ;
        let sx = if horizontal {
            w - 1 - x
        } else {
            x
        };
        let sy = if vertical {
            h - 1 - y
        } else {
            y
        };
        assert((sy * w + sx) * 4 + channel < w * h * 4 && sy * w <= sy * w + sx && (sy * w + sx) * 4
            <= (sy * w + sx) * 4 + channel) by (nonlinear_arith)
            requires
                sx < w,
                sy < h,
                channel < 4,
        ;
        let base = (sy * w + sx) * 4;
        output.push(input[base + channel]);
        i = i + 1;
    }
    assert(output@ =~= flipped_image(input@, width as int, height as int, horizontal, vertical));
    Ok(output)
}

/// The image `flip_pixels` produces.
pub open spec fn flipped_image(input: Seq<u8>, width: int, height: int, horizontal: bool, vertical: bool) -> Seq<u8> {
    Seq::new(input.len(), |i: int| flipped_spec(input, width, height, horizontal, vertical, i))
}

proof fn lemma_pixel_split(width: int, height: int, i: int)
    requires
        width > 0,
        height > 0,
        0 <= i < width * height * 4,
    ensures
        0 <= (i / 4) % width < width,
        0 <= (i / 4) / width < height,
        ((i / 4) / width * width + (i / 4) % width) * 4 + i % 4 == i,
{
    let p = i / 4;
    assert(0 <= p < width * height && p * 4 + i % 4 == i) by (nonlinear_arith)
        requires
            0 <= i < width * height * 4,
            p == i / 4,
    ;
    assert(0 <= p % width < width && 0 <= p / width < height && p / width * width + p % width == p)
        by (nonlinear_arith)
        requires
            0 <= p < width * height,
            width > 0,
    ;
}

proof fn lemma_pixel_join(width: int, height: int, x: int, y: int, c: int)
    requires
        width > 0,
        0 <= x < width,
        0 <= y < height,
        0 <= c < 4,
    ensures
        0 <= (y * width + x) * 4 + c < width * height * 4,
        ((y * width + x) * 4 + c) / 4 == y * width + x,
        ((y * width + x) * 4 + c) % 4 == c,
        (y * width + x) % width == x,
        (y * width + x) / width == y,
{
    assert(0 <= (y * width + x) * 4 + c < width * height * 4) by (nonlinear_arith)
        requires
            0 <= x < width,
            0 <= y < height,
            0 <= c < 4,
    ;
    vstd::arithmetic::div_mod::lemma_fundamental_div_mod_converse((y * width + x) * 4 + c, 4, y * width + x, c);
    vstd::arithmetic::div_mod::lemma_fundamental_div_mod_converse(y * width + x, width, y, x);
}

/// Mirroring an image twice in the same directions gives it back.
pub proof fn law_flip_twice_restores(input: Seq<u8>, width: u32, height: u32, horizontal: bool, vertical: bool)
    requires
        input.len() == width * height * 4,
    ensures
        flipped_image(
            flipped_image(input, width as int, height as int, horizontal, vertical),
            width as int,
            height as int,
            horizontal,
            vertical,
        ) == input,
{
    let w = width as int;
    let h = height as int;
    let once = flipped_image(input, w, h, horizontal, vertical);
    let twice = flipped_image(once, w, h, horizontal, vertical);
    assert forall|i: int| 0 <= i < input.len() implies #[trigger] twice[i] == input[i] by {
        assert(w > 0 && h > 0) by (nonlinear_arith)
            requires
                0 <= i < w * h * 4,
                w >= 0,
                h >= 0,
        ;
        lemma_pixel_split(w, h, i);
        let x = (i / 4) % w;
        let y = (i / 4) / w;
        let c = i % 4;
        let sx = if horizontal { w - 1 - x } else { x };
        let sy = if vertical { h - 1 - y } else { y };
        let j = (sy * w + sx) * 4 + c;
        lemma_pixel_join(w, h, sx, sy, c);
        assert(twice[i] == once[j]);
        let sx2 = if horizontal { w - 1 - sx } else { sx };
        let sy2 = if vertical { h - 1 - sy } else { sy };
        assert(sx2 == x && sy2 == y);
        assert(once[j] == input[(sy2 * w + sx2) * 4 + c]);
    }
    assert(twice =~= input);
}

} // verus!
