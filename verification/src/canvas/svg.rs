//! Byte-level guards and helpers of the deterministic SVG subset.

use vstd::prelude::*;
use vstd::utf8::valid_utf8;

use crate::canvas::document::{BlendMode, Pixel};
use crate::canvas::error::{CoreError, FormatError};
use crate::canvas::ora::{ora_blend_name, place_layer, placed, xml_escape, xml_escaped};
use crate::text::{is_utf8, push_chars, text_of_encoding};
use vstd::string::StringExecFns;
use vstd::utf8::encode_utf8;

verus! {

pub const MAX_SVG_XML_BYTES: usize = 16 * 1024 * 1024;
pub const MAX_SVG_ATTRIBUTES: usize = 64;

/// Number of leading bytes that root detection looks at.
pub const SVG_DETECTION_PREFIX: usize = 4_096;

/// Whether `s` holds `pattern` at `at`.
pub open spec fn bytes_at(s: Seq<u8>, at: int, pattern: Seq<u8>) -> bool {
    0 <= at && at + pattern.len() <= s.len() && s.subrange(at, at + pattern.len()) == pattern
}

/// Whether `s` holds `pattern` anywhere at or after `from`.
pub open spec fn holds_from(s: Seq<u8>, from: int, pattern: Seq<u8>) -> bool {
    exists|at: int| from <= at && #[trigger] bytes_at(s, at, pattern)
}

/// Length of the UTF-8 encoding of a white-space character (Unicode
/// `White_Space`, as `char::is_whitespace` uses it) at `i`, or 0.
pub open spec fn white_space_len(s: Seq<u8>, i: int) -> int {
    if i < 0 || i >= s.len() {
        0
    } else if (9 <= s[i] <= 13) || s[i] == 32 {
        1
    } else if i + 1 < s.len() && s[i] == 0xC2 && (s[i + 1] == 0x85 || s[i + 1] == 0xA0) {
        2
    } else if i + 2 < s.len() && ((s[i] == 0xE1 && s[i + 1] == 0x9A && s[i + 2] == 0x80) || (s[i] == 0xE2
        && s[i + 1] == 0x80 && ((0x80 <= s[i + 2] <= 0x8A) || s[i + 2] == 0xA8 || s[i + 2] == 0xA9 || s[i
        + 2] == 0xAF)) || (s[i] == 0xE2 && s[i + 1] == 0x81 && s[i + 2] == 0x9F) || (s[i] == 0xE3 && s[i
        + 1] == 0x80 && s[i + 2] == 0x80)) {
        3
    } else {
        0
    }
}

/// Position after the byte-order marks starting at `i`.
pub open spec fn skip_marks(s: Seq<u8>, i: int) -> int
    decreases s.len() - i,
{
    if 0 <= i && i + 3 <= s.len() && s[i] == 0xEF && s[i + 1] == 0xBB && s[i + 2] == 0xBF {
        skip_marks(s, i + 3)
    } else {
        i
    }
}

/// Position after the white space starting at `i`.
pub open spec fn skip_white_space(s: Seq<u8>, i: int) -> int
    decreases s.len() - i,
{
    if white_space_len(s, i) > 0 {
        skip_white_space(s, i + white_space_len(s, i))
    } else {
        i
    }
}

/// `<svg`.
pub open spec fn svg_open() -> Seq<u8> {
    seq![60u8, 115, 118, 103]
}

/// `<?xml`.
pub open spec fn xml_declaration() -> Seq<u8> {
    seq![60u8, 63, 120, 109, 108]
}

/// Whether the first 4096 bytes read as UTF-8 text that, after byte-order
/// marks and then white space, starts an SVG root, directly or after an XML
/// declaration.
pub open spec fn svg_root_spec(bytes: Seq<u8>) -> bool {
    let prefix = bytes.take(
        if bytes.len() < SVG_DETECTION_PREFIX {
            bytes.len() as int
        } else {
            SVG_DETECTION_PREFIX as int
        },
    );
    let start = skip_white_space(prefix, skip_marks(prefix, 0));
    valid_utf8(prefix) && (bytes_at(prefix, start, svg_open()) || (bytes_at(prefix, start, xml_declaration())
        && holds_from(prefix, start, svg_open())))
}

proof fn lemma_skip_bounds(s: Seq<u8>, i: int)
    requires
        0 <= i <= s.len(),
    ensures
        i <= skip_marks(s, i) <= s.len(),
        i <= skip_white_space(s, i) <= s.len(),
    decreases s.len() - i,
{
    if i + 3 <= s.len() && s[i] == 0xEF && s[i + 1] == 0xBB && s[i + 2] == 0xBF {
        lemma_skip_bounds(s, i + 3);
    }
    if white_space_len(s, i) > 0 {
        lemma_skip_bounds(s, i + white_space_len(s, i));
    }
}

fn white_space_at(s: &[u8], i: usize) -> (n: usize)
    ensures
        n == white_space_len(s@, i as int),
{
    let len = s.len();
    if i >= len {
        return 0;
    }
    let b = s[i];
    if (9 <= b && b <= 13) || b == 32 {
        return 1;
    }
    if len - i > 1 && b == 0xC2 && (s[i + 1] == 0x85 || s[i + 1] == 0xA0) {
        return 2;
    }
    if len - i > 2 {
        let c = s[i + 1];
        let d = s[i + 2];
        if (b == 0xE1 && c == 0x9A && d == 0x80) || (b == 0xE2 && c == 0x80 && ((0x80 <= d && d <= 0x8A) || d
            == 0xA8 || d == 0xA9 || d == 0xAF)) || (b == 0xE2 && c == 0x81 && d == 0x9F) || (b == 0xE3 && c
            == 0x80 && d == 0x80) {
            return 3;
        }
    }
    0
}

fn matches_at(s: &[u8], at: usize, pattern: &[u8]) -> (r: bool)
    ensures
        r == bytes_at(s@, at as int, pattern@),
{
    if at > s.len() || s.len() - at < pattern.len() {
        return false;
    }
    let mut k: usize = 0;
    while k < pattern.len()
        invariant
            at + pattern@.len() <= s.len(),
            k <= pattern@.len(),
            forall|j: int| 0 <= j < k ==> s@[at + j] == pattern@[j],
        decreases pattern@.len() - k,
    {
        if s[at + k] != pattern[k] {
            proof {
                assert(s@.subrange(at as int, at + pattern@.len())[k as int] != pattern@[k as int]);
            }
            return false;
        }
        k = k + 1;
    }
    proof {
        assert(s@.subrange(at as int, at + pattern@.len()) =~= pattern@);
    }
    true
}

fn find_from(s: &[u8], from: usize, pattern: &[u8]) -> (r: bool)
    requires
        pattern@.len() > 0,
    ensures
        r == holds_from(s@, from as int, pattern@),
{
    let mut at = from;
    while at < s.len()
        invariant
            from <= at,
            forall|j: int| from <= j < at ==> !#[trigger] bytes_at(s@, j, pattern@),
        decreases s@.len() - at,
    {
        if matches_at(s, at, pattern) {
            return true;
        }
        at = at + 1;
    }
    proof {
        assert forall|j: int| from <= j implies !#[trigger] bytes_at(s@, j, pattern@) by {
            if j >= at {
                assert(j + pattern@.len() > s@.len());
            }
        }
    }
    false
}

/// Whether the input looks like an SVG document: checked on its first 4096
/// bytes only, so that oversized input still reaches the byte-limit check.
pub fn has_svg_root(bytes: &[u8]) -> (r: bool)
    ensures
        r == svg_root_spec(bytes@),
{
    let n = if bytes.len() < SVG_DETECTION_PREFIX {
        bytes.len()
    } else {
        SVG_DETECTION_PREFIX
    };
    let prefix = slice_prefix(bytes, n);
    if !is_utf8(prefix.as_slice()) {
        return false;
    }
    let ghost p = prefix@;
    let mut i: usize = 0;
    while i + 3 <= prefix.len() && prefix[i] == 0xEF && prefix[i + 1] == 0xBB && prefix[i + 2] == 0xBF
        invariant
            p == prefix@,
            p.len() <= SVG_DETECTION_PREFIX,
            i <= p.len(),
            skip_marks(p, i as int) == skip_marks(p, 0),
        decreases p.len() - i,
    {
        i = i + 3;
    }
    while white_space_at(prefix.as_slice(), i) > 0
        invariant
            p == prefix@,
            p.len() <= SVG_DETECTION_PREFIX,
            i <= p.len(),
            skip_white_space(p, i as int) == skip_white_space(p, skip_marks(p, 0)),
        decreases p.len() - i,
    {
        let w = white_space_at(prefix.as_slice(), i);
        i = i + w;
    }
    let svg: [u8; 4] = [60, 115, 118, 103];
    let xml: [u8; 5] = [60, 63, 120, 109, 108];
    proof {
        assert(svg@ == svg_open());
        assert(xml@ == xml_declaration());
    }
    matches_at(prefix.as_slice(), i, svg.as_slice()) || (matches_at(prefix.as_slice(), i, xml.as_slice())
        && find_from(prefix.as_slice(), i, svg.as_slice()))
}

fn slice_prefix(bytes: &[u8], n: usize) -> (r: Vec<u8>)
    requires
        n <= bytes@.len(),
    ensures
        r@ == bytes@.take(n as int),
{
    let mut out: Vec<u8> = Vec::with_capacity(n);
    let mut i: usize = 0;
    while i < n
        invariant
            n <= bytes@.len(),
            i <= n,
            out@ == bytes@.take(i as int),
        decreases n - i,
    {
        out.push(bytes[i]);
        proof {
            assert(out@ =~= bytes@.take(i + 1));
        }
        i = i + 1;
    }
    out
}

/// Number of element and declaration openings that SVG input may not hold.
pub const FORBIDDEN_SVG_TAG_COUNT: usize = 13;

/// Forbidden opening `k`, in lower case: `<!doctype`, `<!entity`, `<script`, `<style`, `<use`, `<filter`, `<clippath`, `<mask`, `<animate`, `<set`, `<lineargradient`, `<radialgradient`, `<pattern`.
pub open spec fn forbidden_svg_tag(k: int) -> Seq<u8> {
    if k == 0 {
        seq![60u8, 33, 100, 111, 99, 116, 121, 112, 101]
    } else if k == 1 {
        seq![60u8, 33, 101, 110, 116, 105, 116, 121]
    } else if k == 2 {
        seq![60u8, 115, 99, 114, 105, 112, 116]
    } else if k == 3 {
        seq![60u8, 115, 116, 121, 108, 101]
    } else if k == 4 {
        seq![60u8, 117, 115, 101]
    } else if k == 5 {
        seq![60u8, 102, 105, 108, 116, 101, 114]
    } else if k == 6 {
        seq![60u8, 99, 108, 105, 112, 112, 97, 116, 104]
    } else if k == 7 {
        seq![60u8, 109, 97, 115, 107]
    } else if k == 8 {
        seq![60u8, 97, 110, 105, 109, 97, 116, 101]
    } else if k == 9 {
        seq![60u8, 115, 101, 116]
    } else if k == 10 {
        seq![60u8, 108, 105, 110, 101, 97, 114, 103, 114, 97, 100, 105, 101, 110, 116]
    } else if k == 11 {
        seq![60u8, 114, 97, 100, 105, 97, 108, 103, 114, 97, 100, 105, 101, 110, 116]
    } else if k == 12 {
        seq![60u8, 112, 97, 116, 116, 101, 114, 110]
    } else {
        seq![]
    }
}

fn forbidden_tag(k: usize) -> (r: Vec<u8>)
    requires
        k < FORBIDDEN_SVG_TAG_COUNT,
    ensures
        r@ == forbidden_svg_tag(k as int),
{
    let v = if k == 0 {
        vec![60u8, 33, 100, 111, 99, 116, 121, 112, 101]
    } else if k == 1 {
        vec![60u8, 33, 101, 110, 116, 105, 116, 121]
    } else if k == 2 {
        vec![60u8, 115, 99, 114, 105, 112, 116]
    } else if k == 3 {
        vec![60u8, 115, 116, 121, 108, 101]
    } else if k == 4 {
        vec![60u8, 117, 115, 101]
    } else if k == 5 {
        vec![60u8, 102, 105, 108, 116, 101, 114]
    } else if k == 6 {
        vec![60u8, 99, 108, 105, 112, 112, 97, 116, 104]
    } else if k == 7 {
        vec![60u8, 109, 97, 115, 107]
    } else if k == 8 {
        vec![60u8, 97, 110, 105, 109, 97, 116, 101]
    } else if k == 9 {
        vec![60u8, 115, 101, 116]
    } else if k == 10 {
        vec![60u8, 108, 105, 110, 101, 97, 114, 103, 114, 97, 100, 105, 101, 110, 116]
    } else if k == 11 {
        vec![60u8, 114, 97, 100, 105, 97, 108, 103, 114, 97, 100, 105, 101, 110, 116]
    } else if k == 12 {
        vec![60u8, 112, 97, 116, 116, 101, 114, 110]
    } else {
        vec![]
    };
    proof {
        assert(v@ =~= forbidden_svg_tag(k as int));
    }
    v
}

/// ASCII lower case of a byte.
pub open spec fn ascii_lower(b: u8) -> u8 {
    if 65 <= b <= 90 {
        (b + 32) as u8
    } else {
        b
    }
}

/// Whether `s` holds `pattern` at `at`, ignoring ASCII case on `s`'s side.
pub open spec fn folded_at(s: Seq<u8>, at: int, pattern: Seq<u8>) -> bool {
    0 <= at && at + pattern.len() <= s.len() && forall|k: int|
        0 <= k < pattern.len() ==> ascii_lower(#[trigger] s[at + k]) == pattern[k]
}

/// Whether `s` holds `pattern` anywhere, ignoring ASCII case.
pub open spec fn holds_folded(s: Seq<u8>, pattern: Seq<u8>) -> bool {
    exists|at: int| #[trigger] folded_at(s, at, pattern)
}

/// The byte limit and construct ban of SVG input: constructs are matched
/// without regard to ASCII case.
pub open spec fn xml_guard_spec(bytes: Seq<u8>) -> Result<(), FormatError> {
    if bytes.len() > MAX_SVG_XML_BYTES {
        Err(FormatError::LimitExceeded("SVG XML bytes"))
    } else if exists|k: int| 0 <= k < FORBIDDEN_SVG_TAG_COUNT && holds_folded(bytes, #[trigger] forbidden_svg_tag(k)) {
        Err(FormatError::UnsupportedFeature("forbidden SVG construct"))
    } else {
        Ok(())
    }
}

fn lower(b: u8) -> (r: u8)
    ensures
        r == ascii_lower(b),
{
    if 65 <= b && b <= 90 {
        b + 32
    } else {
        b
    }
}

fn folded_match_at(s: &[u8], at: usize, pattern: &[u8]) -> (r: bool)
    ensures
        r == folded_at(s@, at as int, pattern@),
{
    if at > s.len() || s.len() - at < pattern.len() {
        return false;
    }
    let mut k: usize = 0;
    while k < pattern.len()
        invariant
            at + pattern@.len() <= s.len(),
            k <= pattern@.len(),
            forall|j: int| 0 <= j < k ==> ascii_lower(#[trigger] s@[at + j]) == pattern@[j],
        decreases pattern@.len() - k,
    {
        if lower(s[at + k]) != pattern[k] {
            return false;
        }
        k = k + 1;
    }
    true
}

pub(crate) fn find_folded(s: &[u8], pattern: &[u8]) -> (r: bool)
    requires
        pattern@.len() > 0,
    ensures
        r == holds_folded(s@, pattern@),
{
    let mut at: usize = 0;
    while at < s.len()
        invariant
            forall|j: int| 0 <= j < at ==> !#[trigger] folded_at(s@, j, pattern@),
        decreases s@.len() - at,
    {
        if folded_match_at(s, at, pattern) {
            return true;
        }
        at = at + 1;
    }
    proof {
        assert forall|j: int| !#[trigger] folded_at(s@, j, pattern@) by {
            if j >= at {
                assert(j + pattern@.len() > s@.len());
            }
        }
    }
    false
}

/// Rejects oversized SVG input and input holding scripts, styles, DTDs,
/// references, filters, masks, animation, gradients, or patterns.
pub fn xml_guard(bytes: &[u8]) -> (r: Result<(), FormatError>)
    ensures
        r == xml_guard_spec(bytes@),
{
    if bytes.len() > MAX_SVG_XML_BYTES {
        return Err(FormatError::LimitExceeded("SVG XML bytes"));
    }
    let mut k: usize = 0;
    while k < FORBIDDEN_SVG_TAG_COUNT
        invariant
            bytes@.len() <= MAX_SVG_XML_BYTES,
            k <= FORBIDDEN_SVG_TAG_COUNT,
            forall|j: int| 0 <= j < k ==> !holds_folded(bytes@, #[trigger] forbidden_svg_tag(j)),
        decreases FORBIDDEN_SVG_TAG_COUNT - k,
    {
        let tag = forbidden_tag(k);
        proof {
            assert(tag@.len() > 0) by {
                reveal_with_fuel(forbidden_svg_tag, 1);
            }
        }
        if find_folded(bytes, tag.as_slice()) {
            return Err(FormatError::UnsupportedFeature("forbidden SVG construct"));
        }
        k = k + 1;
    }
    Ok(())
}

/// Rejects SVG output that would grow past the XML byte limit.
pub fn ensure_output_capacity(current: usize, additional: usize) -> (r: Result<(), FormatError>)
    ensures
        r is Ok <==> current + additional <= MAX_SVG_XML_BYTES,
        r is Err ==> (r matches Err(FormatError::OutputTooLarge)),
{
    match current.checked_add(additional) {
        None => Err(FormatError::OutputTooLarge),
        Some(total) => if total > MAX_SVG_XML_BYTES {
            Err(FormatError::OutputTooLarge)
        } else {
            Ok(())
        },
    }
}

/// Length of the padded Base64 encoding of `bytes` bytes, when it fits.
pub fn base64_encoded_len(bytes: usize) -> (r: Result<usize, FormatError>)
    ensures
        (bytes + 2) / 3 * 4 <= usize::MAX && bytes + 2 <= usize::MAX ==> r == Ok::<usize, FormatError>(
            ((bytes + 2) / 3 * 4) as usize,
        ),
        !((bytes + 2) / 3 * 4 <= usize::MAX && bytes + 2 <= usize::MAX) ==> (r matches Err(
            FormatError::OutputTooLarge,
        )),
{
    match bytes.checked_add(2) {
        None => Err(FormatError::OutputTooLarge),
        Some(padded) => match (padded / 3).checked_mul(4) {
            None => Err(FormatError::OutputTooLarge),
            Some(len) => Ok(len),
        },
    }
}

/// The SVG `mix-blend-mode` name of a blend mode.
pub fn blend(mode: BlendMode) -> (name: &'static str)
    ensures
        name == blend_name_spec(mode),
{
    match mode {
        BlendMode::Normal => "normal",
        BlendMode::Multiply => "multiply",
        BlendMode::Screen => "screen",
        BlendMode::Overlay => "overlay",
        BlendMode::Add => "plus",
    }
}

/// The SVG name of each blend mode.
pub open spec fn blend_name_spec(mode: BlendMode) -> &'static str {
    match mode {
        BlendMode::Normal => "normal",
        BlendMode::Multiply => "multiply",
        BlendMode::Screen => "screen",
        BlendMode::Overlay => "overlay",
        BlendMode::Add => "plus",
    }
}

/// The blend mode named by an SVG `mix-blend-mode`, if it is supported.
pub open spec fn svg_blend_of(name: Seq<char>) -> Option<BlendMode> {
    if name == "normal"@ {
        Some(BlendMode::Normal)
    } else if name == "multiply"@ {
        Some(BlendMode::Multiply)
    } else if name == "screen"@ {
        Some(BlendMode::Screen)
    } else if name == "overlay"@ {
        Some(BlendMode::Overlay)
    } else if name == "plus"@ {
        Some(BlendMode::Add)
    } else {
        None
    }
}

/// Reads an SVG `mix-blend-mode`; a missing one means normal.
pub fn parse_blend(value: Option<String>) -> (r: Result<BlendMode, CoreError>)
    ensures
        match svg_blend_of(
            match value {
                Some(v) => v@,
                None => "normal"@,
            },
        ) {
            Some(mode) => r == Ok::<BlendMode, CoreError>(mode),
            None => (r matches Err(CoreError::Format(FormatError::UnsupportedFeature(m))) && m
                == "unknown SVG blend mode"),
        },
{
    let name = match value {
        Some(v) => v,
        None => String::from_str("normal"),
    };
    if name == String::from_str("normal") {
        Ok(BlendMode::Normal)
    } else if name == String::from_str("multiply") {
        Ok(BlendMode::Multiply)
    } else if name == String::from_str("screen") {
        Ok(BlendMode::Screen)
    } else if name == String::from_str("overlay") {
        Ok(BlendMode::Overlay)
    } else if name == String::from_str("plus") {
        Ok(BlendMode::Add)
    } else {
        Err(CoreError::Format(FormatError::UnsupportedFeature("unknown SVG blend mode")))
    }
}

/// Writing a blend mode's SVG name and reading it back gives the blend mode.
pub proof fn law_svg_blend_round_trips(mode: BlendMode)
    ensures
        svg_blend_of(blend_name_spec(mode)@) == Some(mode),
{
    reveal_strlit("normal");
    reveal_strlit("multiply");
    reveal_strlit("screen");
    reveal_strlit("overlay");
    reveal_strlit("plus");
    let normal = "normal"@;
    let multiply = "multiply"@;
    let screen = "screen"@;
    let overlay = "overlay"@;
    let plus = "plus"@;
    assert(multiply[0] != normal[0]);
    assert(screen[0] != normal[0]);
    assert(screen[0] != multiply[0]);
    assert(overlay[0] != normal[0]);
    assert(overlay[0] != multiply[0]);
    assert(overlay[0] != screen[0]);
    assert(plus[0] != normal[0]);
    assert(plus[0] != multiply[0]);
    assert(plus[0] != screen[0]);
    assert(plus[0] != overlay[0]);
}

/// Each blend mode is written under its CSS `mix-blend-mode` keyword:
/// normal as `normal`, multiply as `multiply`, screen as `screen`, overlay
/// as `overlay` and additive as `plus`; reading the keyword gives the mode.
pub proof fn law_svg_blend_names_are_css_keywords(mode: BlendMode)
    ensures
        mode == BlendMode::Normal ==> blend_name_spec(mode)@ == "normal"@,
        mode == BlendMode::Multiply ==> blend_name_spec(mode)@ == "multiply"@,
        mode == BlendMode::Screen ==> blend_name_spec(mode)@ == "screen"@,
        mode == BlendMode::Overlay ==> blend_name_spec(mode)@ == "overlay"@,
        mode == BlendMode::Add ==> blend_name_spec(mode)@ == "plus"@,
        svg_blend_of("normal"@) == Some(BlendMode::Normal),
        svg_blend_of("multiply"@) == Some(BlendMode::Multiply),
        svg_blend_of("screen"@) == Some(BlendMode::Screen),
        svg_blend_of("overlay"@) == Some(BlendMode::Overlay),
        svg_blend_of("plus"@) == Some(BlendMode::Add),
{
    law_svg_blend_round_trips(BlendMode::Normal);
    law_svg_blend_round_trips(BlendMode::Multiply);
    law_svg_blend_round_trips(BlendMode::Screen);
    law_svg_blend_round_trips(BlendMode::Overlay);
    law_svg_blend_round_trips(BlendMode::Add);
}

/// Reading an SVG blend name accepts exactly the names blend modes are
/// written under, each for its own mode.
pub proof fn law_svg_blend_reading_is_exact(name: Seq<char>, mode: BlendMode)
    ensures
        svg_blend_of(name) == Some(mode) <==> name == blend_name_spec(mode)@,
{
    law_svg_blend_round_trips(mode);
    if svg_blend_of(name) == Some(mode) {
        law_svg_blend_round_trips(BlendMode::Normal);
        law_svg_blend_round_trips(BlendMode::Multiply);
        law_svg_blend_round_trips(BlendMode::Screen);
        law_svg_blend_round_trips(BlendMode::Overlay);
        law_svg_blend_round_trips(BlendMode::Add);
    }
}

/// Outside the normal mode, the ORA `composite-op` of a blend mode is the
/// SVG compositing name `svg:` followed by its SVG `mix-blend-mode` name,
/// so both formats name each mode the same way.
pub proof fn law_svg_and_ora_blend_names_agree(mode: BlendMode)
    ensures
        mode != BlendMode::Normal ==> ora_blend_name(mode)@ == "svg:"@ + blend_name_spec(mode)@,
{
    reveal_strlit("svg:");
    reveal_strlit("multiply");
    reveal_strlit("screen");
    reveal_strlit("overlay");
    reveal_strlit("plus");
    reveal_strlit("svg:multiply");
    reveal_strlit("svg:screen");
    reveal_strlit("svg:overlay");
    reveal_strlit("svg:plus");
    match mode {
        BlendMode::Normal => {},
        BlendMode::Multiply => {
            assert("svg:multiply"@ =~= "svg:"@ + "multiply"@);
        },
        BlendMode::Screen => {
            assert("svg:screen"@ =~= "svg:"@ + "screen"@);
        },
        BlendMode::Overlay => {
            assert("svg:overlay"@ =~= "svg:"@ + "overlay"@);
        },
        BlendMode::Add => {
            assert("svg:plus"@ =~= "svg:"@ + "plus"@);
        },
    }
}

/// Escapes `&`, `<`, `>`, `"` and `'` for use in SVG attribute values and
/// text.
pub fn escape(value: &str) -> (escaped: String)
    ensures
        escaped@ == xml_escaped(value@),
{
    xml_escape(value)
}

/// Places a decoded embedded PNG at its offset on a transparent canvas.
pub fn place_png(
    source: &[u8],
    source_width: u32,
    source_height: u32,
    width: u32,
    height: u32,
    x: i32,
    y: i32,
) -> (output: Vec<u8>)
    requires
        source@.len() >= source_width * source_height * 4,
        width * height * 4 <= usize::MAX,
    ensures
        output@.len() == width * height * 4,
        forall|i: int|
            0 <= i < output@.len() ==> output@[i] == #[trigger] placed(
                source@,
                source_width as int,
                source_height as int,
                width as int,
                i,
                x as int,
                y as int,
            ),
{
    place_layer(source, source_width, source_height, width, height, x, y)
}

/// Upper-case hexadecimal digit of a value below 16.
pub open spec fn hex_digit(v: int) -> char {
    if v < 10 {
        ((48 + v) as u8) as char
    } else {
        ((55 + v) as u8) as char
    }
}

/// `#RRGGBBAA` in upper-case hexadecimal.
pub open spec fn color_text(color: Pixel) -> Seq<char> {
    seq![
        '#',
        hex_digit(color.r as int / 16),
        hex_digit(color.r as int % 16),
        hex_digit(color.g as int / 16),
        hex_digit(color.g as int % 16),
        hex_digit(color.b as int / 16),
        hex_digit(color.b as int % 16),
        hex_digit(color.a as int / 16),
        hex_digit(color.a as int % 16),
    ]
}

fn hex(v: u8) -> (c: char)
    requires
        v < 16,
    ensures
        c == hex_digit(v as int),
{
    if v < 10 {
        (48 + v) as char
    } else {
        (55 + v) as char
    }
}

/// The SVG color literal of a pixel, with alpha.
pub fn color(pixel: Pixel) -> (text: String)
    ensures
        text@ == color_text(pixel),
{
    let digits = [
        '#',
        hex(pixel.r / 16),
        hex(pixel.r % 16),
        hex(pixel.g / 16),
        hex(pixel.g % 16),
        hex(pixel.b / 16),
        hex(pixel.b % 16),
        hex(pixel.a / 16),
        hex(pixel.a % 16),
    ];
    let mut out: Vec<u8> = Vec::new();
    push_chars(&mut out, digits.as_slice());
    proof {
        assert(out@ == encode_utf8(color_text(pixel)));
    }
    text_of_encoding(out, Ghost(color_text(pixel)))
}

/// Value of an ASCII hexadecimal digit of either case.
pub open spec fn hex_value(b: u8) -> Option<u8> {
    if 48 <= b <= 57 {
        Some((b - 48) as u8)
    } else if 97 <= b <= 102 {
        Some((b - 87) as u8)
    } else if 65 <= b <= 70 {
        Some((b - 55) as u8)
    } else {
        None
    }
}

/// What `u8::from_str_radix(text, 16)` gives for a text of one or two
/// bytes: its hexadecimal digits, after a leading `+` unless the `+` is the
/// whole text.
pub open spec fn radix16(t: Seq<u8>) -> Option<u8> {
    if t.len() == 1 {
        hex_value(t[0])
    } else if t.len() == 2 {
        if t[0] == 43u8 {
            hex_value(t[1])
        } else {
            match (hex_value(t[0]), hex_value(t[1])) {
                (Some(high), Some(low)) => Some((high * 16 + low) as u8),
                _ => None,
            }
        }
    } else {
        None
    }
}

/// Channel `k` of a short hexadecimal color (one digit per channel),
/// widened by repeating the digit.
pub open spec fn short_channel(h: Seq<u8>, k: int) -> Option<u8> {
    match radix16(h.subrange(k, k + 1)) {
        Some(v) => Some((v * 17) as u8),
        None => None,
    }
}

/// Channel `k` of a long hexadecimal color (two digits per channel).
pub open spec fn long_channel(h: Seq<u8>, k: int) -> Option<u8> {
    radix16(h.subrange(2 * k, 2 * k + 2))
}

/// `none`.
pub open spec fn none_text() -> Seq<u8> {
    seq![110u8, 111u8, 110u8, 101u8]
}

/// Whether byte `i` of a UTF-8 text starts a character (or is its end), so
/// the text may be split there.
pub open spec fn splits_at(s: Seq<u8>, i: int) -> bool {
    i == s.len() || !(128 <= s[i] <= 191)
}

/// The color value is split only where characters start: the hexadecimal
/// part is cut into channels at byte offsets, which needs character
/// boundaries there.
pub open spec fn color_splits_ok(s: Seq<u8>) -> bool {
    s.len() > 0 && s[0] == 35u8 ==> {
        let h = s.drop_first();
        &&& h.len() == 3 ==> splits_at(h, 1) && splits_at(h, 2)
        &&& h.len() == 4 ==> splits_at(h, 1) && splits_at(h, 2) && splits_at(h, 3)
        &&& h.len() == 6 ==> splits_at(h, 2) && splits_at(h, 4)
        &&& h.len() == 8 ==> splits_at(h, 2) && splits_at(h, 4) && splits_at(h, 6)
    }
}

/// The color an SVG paint value names: `none`, or `#` followed by three,
/// four, six or eight hexadecimal digits (RGB, RGBA, RRGGBB, RRGGBBAA; alpha
/// defaults to opaque).
pub open spec fn color_spec(s: Seq<u8>) -> Result<Option<Pixel>, FormatError> {
    if s == none_text() {
        Ok(None)
    } else if s.len() == 0 || s[0] != 35u8 {
        Err(FormatError::UnsupportedFeature("only literal hexadecimal SVG colors are supported"))
    } else {
        let h = s.drop_first();
        if h.len() == 3 {
            match (short_channel(h, 0), short_channel(h, 1), short_channel(h, 2)) {
                (Some(r), Some(g), Some(b)) => Ok(Some(Pixel { r, g, b, a: 255 })),
                _ => Err(FormatError::Malformed("invalid SVG color")),
            }
        } else if h.len() == 4 {
            match (short_channel(h, 0), short_channel(h, 1), short_channel(h, 2), short_channel(h, 3)) {
                (Some(r), Some(g), Some(b), Some(a)) => Ok(Some(Pixel { r, g, b, a })),
                _ => Err(FormatError::Malformed("invalid SVG color")),
            }
        } else if h.len() == 6 {
            match (long_channel(h, 0), long_channel(h, 1), long_channel(h, 2)) {
                (Some(r), Some(g), Some(b)) => Ok(Some(Pixel { r, g, b, a: 255 })),
                _ => Err(FormatError::Malformed("invalid SVG color")),
            }
        } else if h.len() == 8 {
            match (long_channel(h, 0), long_channel(h, 1), long_channel(h, 2), long_channel(h, 3)) {
                (Some(r), Some(g), Some(b), Some(a)) => Ok(Some(Pixel { r, g, b, a })),
                _ => Err(FormatError::Malformed("invalid SVG color")),
            }
        } else {
            Err(FormatError::Malformed("invalid SVG color length"))
        }
    }
}

fn hex_digit_value(b: u8) -> (r: Option<u8>)
    ensures
        r == hex_value(b),
{
    if 48 <= b && b <= 57 {
        Some(b - 48)
    } else if 97 <= b && b <= 102 {
        Some(b - 87)
    } else if 65 <= b && b <= 70 {
        Some(b - 55)
    } else {
        None
    }
}

/// `radix16` of the bytes `s[start..start + len]`.
fn radix16_at(s: &[u8], start: usize, len: usize) -> (r: Option<u8>)
    requires
        len == 1 || len == 2,
        start + len <= s@.len(),
    ensures
        r == radix16(s@.subrange(start as int, start + len)),
{
    let t = Ghost(s@.subrange(start as int, start + len));
    assert(t@.len() == len);
    if len == 1 {
        assert(t@[0] == s@[start as int]);
        return hex_digit_value(s[start]);
    }
    assert(t@[0] == s@[start as int] && t@[1] == s@[start + 1]);
    if s[start] == 43 {
        return hex_digit_value(s[start + 1]);
    }
    match (hex_digit_value(s[start]), hex_digit_value(s[start + 1])) {
        (Some(high), Some(low)) => Some(high * 16 + low),
        _ => None,
    }
}

/// `short_channel` of `s[1..]`.
fn short_channel_at(s: &[u8], k: usize) -> (r: Option<u8>)
    requires
        k <= 3,
        s@.len() >= 1 && k + 2 <= s@.len(),
    ensures
        r == short_channel(s@.drop_first(), k as int),
{
    assert(s@.drop_first().subrange(k as int, k + 1) =~= s@.subrange(k + 1, k + 2));
    match radix16_at(s, k + 1, 1) {
        Some(v) => Some(v * 17),
        None => None,
    }
}

/// `long_channel` of `s[1..]`.
fn long_channel_at(s: &[u8], k: usize) -> (r: Option<u8>)
    requires
        k <= 3,
        s@.len() >= 1 && 2 * k + 3 <= s@.len(),
    ensures
        r == long_channel(s@.drop_first(), k as int),
{
    assert(s@.drop_first().subrange(2 * k, 2 * k + 2) =~= s@.subrange(2 * k + 1, 2 * k + 3));
    radix16_at(s, 2 * k + 1, 2)
}

/// Reads an SVG paint value: `none` or a literal hexadecimal color.
pub fn parse_color(value: &str) -> (r: Result<Option<Pixel>, CoreError>)
    requires
        color_splits_ok(encode_utf8(value@)),
    ensures
        match color_spec(encode_utf8(value@)) {
            Ok(color) => r == Ok::<Option<Pixel>, CoreError>(color),
            Err(e) => r == Err::<Option<Pixel>, CoreError>(CoreError::Format(e)),
        },
{
    let s = value.as_bytes();
    let none: [u8; 4] = [110, 111, 110, 101];
    assert(none@ =~= none_text());
    if s.len() == 4 && s[0] == none[0] && s[1] == none[1] && s[2] == none[2] && s[3] == none[3] {
        assert(s@ =~= none_text());
        return Ok(None);
    }
    assert(s@ != none_text());
    if s.len() == 0 || s[0] != 35 {
        return Err(
            CoreError::Format(
                FormatError::UnsupportedFeature("only literal hexadecimal SVG colors are supported"),
            ),
        );
    }
    let n = s.len() - 1;
    let invalid = CoreError::Format(FormatError::Malformed("invalid SVG color"));
    if n == 3 || n == 4 {
        let r = short_channel_at(s, 0);
        let g = short_channel_at(s, 1);
        let b = short_channel_at(s, 2);
        let a = if n == 4 {
            short_channel_at(s, 3)
        } else {
            Some(255u8)
        };
        match (r, g, b, a) {
            (Some(r), Some(g), Some(b), Some(a)) => Ok(Some(Pixel::rgba(r, g, b, a))),
            _ => Err(invalid),
        }
    } else if n == 6 || n == 8 {
        let r = long_channel_at(s, 0);
        let g = long_channel_at(s, 1);
        let b = long_channel_at(s, 2);
        let a = if n == 8 {
            long_channel_at(s, 3)
        } else {
            Some(255u8)
        };
        match (r, g, b, a) {
            (Some(r), Some(g), Some(b), Some(a)) => Ok(Some(Pixel::rgba(r, g, b, a))),
            _ => Err(invalid),
        }
    } else {
        Err(CoreError::Format(FormatError::Malformed("invalid SVG color length")))
    }
}

} // verus!
