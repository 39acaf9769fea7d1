//! Semantic text set in the embedded 8x8 bitmap font: which text can be set,
//! how much room it takes, and which pixels its glyphs cover. Positions and
//! sizes are in 1/256 pixel, already quantized.

use vstd::prelude::*;
use vstd::utf8::encode_utf8;

use crate::canvas::document::{MAX_FONT_FAMILY_BYTES, MAX_FONT_ID_BYTES, MAX_TEXT_CONTENT_BYTES};
use crate::canvas::error::CoreError;
use crate::canvas::semantic::{clipped_fixed_bounds, clipped_fixed_spec, MAX_FIXED_COORDINATE, MAX_TEXT_WORK};
use crate::text::{byte_len, chars_of, trim, trim_range, utf8_len};

verus! {

/// Identifier of the embedded font, the only one semantic text may name.
pub const EMBEDDED_FONT_ID: &'static str = "font8x8-basic-0.3.1";

/// The eight rows of the embedded font's bitmap for `c`, top row first; in
/// each row bit `k` is column `k`.
pub uninterp spec fn basic_glyph_rows(c: char) -> Seq<u8>;

/// `font8x8::BASIC_FONTS.get`: the embedded font holds a bitmap for exactly
/// the characters U+0000 to U+007F (its table lists those 128 characters in
/// order and is searched by character).
#[verifier::external_body]
fn basic_glyph(c: char) -> (r: Option<[u8; 8]>)
    ensures
        r is Some <==> (c as u32) < 128,
        r matches Some(rows) ==> rows@ == basic_glyph_rows(c),
{
    font8x8::UnicodeFonts::get(&font8x8::BASIC_FONTS, c)
}

/// A character the embedded font can set: a line feed, a space, or a
/// printable ASCII character.
pub open spec fn settable(c: char) -> bool {
    c == '\n' || c == ' ' || (0x21 <= (c as u32) <= 0x7E)
}

/// The first character of `text` that cannot be set, if any.
pub open spec fn first_unsettable(text: Seq<char>, i: int) -> bool {
    &&& 0 <= i < text.len()
    &&& !settable(text[i])
    &&& forall|j: int| 0 <= j < i ==> settable(#[trigger] text[j])
}

/// Checks that every character of the text can be set in the embedded font,
/// reporting the first one that cannot.
pub fn validate_text_glyphs(text: &str) -> (r: Result<(), CoreError>)
    ensures
        r is Ok <==> forall|i: int| 0 <= i < text@.len() ==> settable(#[trigger] text@[i]),
        r matches Err(e) ==> exists|i: int|
            first_unsettable(text@, i) && e == CoreError::UnsupportedTextGlyph(text@[i]),
{
    let chars = chars_of(text);
    let mut i: usize = 0;
    while i < chars.len()
        invariant
            chars@ == text@,
            i <= chars@.len(),
            forall|j: int| 0 <= j < i ==> settable(#[trigger] text@[j]),
        decreases chars@.len() - i,
    {
        let c = chars[i];
        let graphic = 0x21 <= (c as u32) && (c as u32) <= 0x7E;
        if c != '\n' && !graphic && c != ' ' {
            proof {
                assert(first_unsettable(text@, i as int));
            }
            return Err(CoreError::UnsupportedTextGlyph(c));
        }
        if c != '\n' && basic_glyph(c).is_none() {
            return Err(CoreError::UnsupportedTextGlyph(c));
        }
        i = i + 1;
    }
    Ok(())
}

/// The byte limits and style of semantic text: the text, font family and
/// font id are each within their byte limit, the font is the embedded one
/// and the family is not blank.
pub open spec fn text_fields_spec(text: Seq<char>, family: Seq<char>, font_id: Seq<char>) -> Result<
    (),
    CoreError,
> {
    if utf8_len(text) > MAX_TEXT_CONTENT_BYTES {
        Err(CoreError::DocumentLimitExceeded("text content bytes"))
    } else if utf8_len(family) > MAX_FONT_FAMILY_BYTES {
        Err(CoreError::DocumentLimitExceeded("font family bytes"))
    } else if utf8_len(font_id) > MAX_FONT_ID_BYTES {
        Err(CoreError::DocumentLimitExceeded("font id bytes"))
    } else if font_id != EMBEDDED_FONT_ID@ || trim(family).len() == 0 {
        Err(CoreError::InvalidSemanticStyle)
    } else {
        Ok(())
    }
}

/// Checks the byte limits and the font of semantic text.
pub fn validate_text_fields(text: &String, family: &String, font_id: &String) -> (r: Result<
    (),
    CoreError,
>)
    ensures
        r == text_fields_spec(text@, family@, font_id@),
{
    if byte_len(text) > MAX_TEXT_CONTENT_BYTES {
        return Err(CoreError::DocumentLimitExceeded("text content bytes"));
    }
    if byte_len(family) > MAX_FONT_FAMILY_BYTES {
        return Err(CoreError::DocumentLimitExceeded("font family bytes"));
    }
    if byte_len(font_id) > MAX_FONT_ID_BYTES {
        return Err(CoreError::DocumentLimitExceeded("font id bytes"));
    }
    let embedded = String::from_str(EMBEDDED_FONT_ID);
    let family_chars = chars_of(family.as_str());
    let (start, end) = trim_range(&family_chars);
    if *font_id != embedded || start == end {
        return Err(CoreError::InvalidSemanticStyle);
    }
    Ok(())
}

/// Number of characters in each line of `text`, lines being separated by
/// line feeds.
pub open spec fn line_lengths(text: Seq<char>) -> Seq<nat>
    decreases text.len(),
{
    if text.len() == 0 {
        seq![0]
    } else {
        let rest = line_lengths(text.drop_last());
        if text.last() == '\n' {
            rest.push(0)
        } else {
            rest.update(rest.len() - 1, rest.last() + 1)
        }
    }
}

/// The largest of the numbers.
pub open spec fn max_of(values: Seq<nat>) -> nat
    decreases values.len(),
{
    if values.len() == 0 {
        0
    } else {
        let rest = max_of(values.drop_last());
        if values.last() > rest {
            values.last()
        } else {
            rest
        }
    }
}

proof fn lemma_line_lengths_len(text: Seq<char>)
    ensures
        line_lengths(text).len() >= 1,
        line_lengths(text).len() <= text.len() + 1,
        line_lengths(text).last() <= text.len(),
    decreases text.len(),
{
    if text.len() > 0 {
        lemma_line_lengths_len(text.drop_last());
    }
}

/// Columns and lines of text: the length of its longest line and the
/// number of lines.
pub fn text_layout(text: &str) -> (r: (usize, usize))
    requires
        text@.len() < usize::MAX,
    ensures
        r.0 == max_of(line_lengths(text@)),
        r.1 == line_lengths(text@).len(),
{
    let chars = chars_of(text);
    let mut columns: usize = 0;
    let mut max_columns: usize = 0;
    let mut lines: usize = 1;
    let mut i: usize = 0;
    assert(chars@.take(0) =~= Seq::<char>::empty());
    while i < chars.len()
        invariant
            chars@ == text@,
            text@.len() < usize::MAX,
            i <= chars@.len(),
            lines == line_lengths(chars@.take(i as int)).len(),
            columns == line_lengths(chars@.take(i as int)).last(),
            max_columns == max_of(line_lengths(chars@.take(i as int)).drop_last()),
            columns <= i,
            lines <= i + 1,
        decreases chars@.len() - i,
    {
        let ghost before = chars@.take(i as int);
        let ghost after = chars@.take(i + 1);
        proof {
            assert(after.drop_last() =~= before);
            lemma_line_lengths_len(before);
        }
        if chars[i] == '\n' {
            if columns > max_columns {
                max_columns = columns;
            }
            columns = 0;
            lines = lines + 1;
            proof {
                let ls = line_lengths(before);
                assert(line_lengths(after) == ls.push(0));
                assert(ls.push(0).drop_last() =~= ls);
                assert(max_of(ls) == if ls.last() > max_of(ls.drop_last()) {
                    ls.last()
                } else {
                    max_of(ls.drop_last())
                });
            }
        } else {
            columns = columns + 1;
            proof {
                let ls = line_lengths(before);
                let next = ls.update(ls.len() - 1, ls.last() + 1);
                assert(line_lengths(after) == next);
                assert(next.drop_last() =~= ls.drop_last());
                lemma_max_raise_last(ls);
            }
        }
        i = i + 1;
    }
    assert(chars@.take(chars@.len() as int) =~= chars@);
    proof {
        lemma_line_lengths_len(text@);
    }
    if columns > max_columns {
        max_columns = columns;
    }
    (max_columns, lines)
}

/// Raising the last number by one raises the maximum to at least it.
proof fn lemma_max_raise_last(values: Seq<nat>)
    requires
        values.len() >= 1,
    ensures
        ({
            let raised = values.update(values.len() - 1, values.last() + 1);
            let m = max_of(values.drop_last());
            &&& max_of(raised) == if values.last() + 1 > m {
                values.last() + 1
            } else {
                m
            }
            &&& max_of(values) == if values.last() > m {
                values.last()
            } else {
                m
            }
        }),
{
    let raised = values.update(values.len() - 1, values.last() + 1);
    assert(raised.drop_last() =~= values.drop_last());
}

/// Largest quantized font size: 4096 pixels in 1/256 pixel.
pub const MAX_FIXED_FONT_SIZE: i64 = 1_048_576;

/// Checked text that can be laid out without overflow: its characters can be
/// set, it is within the byte limit, and its origin and size are quantized
/// within their bounds.
pub open spec fn layout_bounded(text: Seq<char>, origin_x: i64, origin_y: i64, size: i64) -> bool {
    &&& forall|i: int| 0 <= i < text.len() ==> settable(#[trigger] text[i])
    &&& utf8_len(text) <= MAX_TEXT_CONTENT_BYTES
    &&& -MAX_FIXED_COORDINATE <= origin_x <= MAX_FIXED_COORDINATE
    &&& -MAX_FIXED_COORDINATE <= origin_y <= MAX_FIXED_COORDINATE
    &&& 0 < size <= MAX_FIXED_FONT_SIZE
}

/// The box text covers, in 1/256 pixel: from its origin, as wide as its
/// longest line and as tall as its lines, each character `size` square.
pub open spec fn text_box(text: Seq<char>, origin_x: int, origin_y: int, size: int) -> (int, int, int, int) {
    (
        origin_x,
        origin_y,
        origin_x + max_of(line_lengths(text)) * size,
        origin_y + line_lengths(text).len() * size,
    )
}

/// The canvas pixels text touches, if any.
pub open spec fn text_pixels(
    text: Seq<char>,
    origin_x: int,
    origin_y: int,
    size: int,
    width: int,
    height: int,
) -> Option<(int, int, int, int)> {
    let (x0, y0, x1, y1) = text_box(text, origin_x, origin_y, size);
    clipped_fixed_spec(x0, y0, x1, y1, width, height)
}

/// The rendering work text takes: sixteen samples for each pixel it
/// touches.
pub open spec fn text_work(
    text: Seq<char>,
    origin_x: int,
    origin_y: int,
    size: int,
    width: int,
    height: int,
) -> int {
    match text_pixels(text, origin_x, origin_y, size, width, height) {
        Some((x0, y0, x1, y1)) => (x1 - x0) * (y1 - y0) * 16,
        None => 0,
    }
}

proof fn lemma_layout_small(text: Seq<char>)
    requires
        forall|i: int| 0 <= i < text.len() ==> settable(#[trigger] text[i]),
        utf8_len(text) <= MAX_TEXT_CONTENT_BYTES,
    ensures
        text.len() <= MAX_TEXT_CONTENT_BYTES,
        max_of(line_lengths(text)) <= text.len(),
        line_lengths(text).len() <= text.len() + 1,
{
    lemma_ascii_encoding(text);
    lemma_line_lengths_bounded(text);
}

/// ASCII text encodes to one byte per character, each below 128.
proof fn lemma_ascii_encoding(text: Seq<char>)
    requires
        forall|i: int| 0 <= i < text.len() ==> settable(#[trigger] text[i]),
    ensures
        encode_utf8(text).len() == text.len(),
        forall|i: int|
            0 <= i < text.len() ==> #[trigger] encode_utf8(text)[i] as u32 == text[i] as u32 && (
            text[i] as u32) < 128,
    decreases text.len(),
{
    if text.len() > 0 {
        let rest = text.drop_first();
        assert forall|i: int| 0 <= i < rest.len() implies settable(#[trigger] rest[i]) by {
            assert(rest[i] == text[i + 1]);
        }
        lemma_ascii_encoding(rest);
        assert(settable(text[0]));
        let v = text[0] as u32;
        assert(v < 128);
        assert((v & 0x7F) == v) by (bit_vector)
            requires
                v < 128,
        ;
        assert(encode_utf8(text) == vstd::utf8::encode_scalar(v) + encode_utf8(rest));
        assert(vstd::utf8::encode_scalar(v) == seq![(v & 0x7F) as u8]);
        assert forall|i: int| 0 <= i < text.len() implies #[trigger] encode_utf8(text)[i] as u32
            == text[i] as u32 && (text[i] as u32) < 128 by {
            assert(settable(text[i]));
            if i > 0 {
                assert(text[i] == rest[i - 1]);
                assert(encode_utf8(text)[i] == encode_utf8(rest)[i - 1]);
            }
        }
    }
}

proof fn lemma_line_lengths_bounded(text: Seq<char>)
    ensures
        max_of(line_lengths(text)) <= text.len(),
        line_lengths(text).len() <= text.len() + 1,
        forall|k: int| 0 <= k < line_lengths(text).len() ==> #[trigger] line_lengths(text)[k] <= text.len(),
    decreases text.len(),
{
    if text.len() > 0 {
        lemma_line_lengths_bounded(text.drop_last());
        let rest = line_lengths(text.drop_last());
        lemma_line_lengths_len(text.drop_last());
        let ls = line_lengths(text);
        lemma_max_bounded(ls, text.len() as nat);
    } else {
        assert(line_lengths(text) =~= seq![0nat]);
        reveal_with_fuel(max_of, 2);
    }
}

proof fn lemma_max_bounded(values: Seq<nat>, bound: nat)
    requires
        forall|k: int| 0 <= k < values.len() ==> #[trigger] values[k] <= bound,
    ensures
        max_of(values) <= bound,
    decreases values.len(),
{
    if values.len() > 0 {
        lemma_max_bounded(values.drop_last(), bound);
    }
}

/// Refuses text whose rendering would take more than `MAX_TEXT_WORK`
/// samples.
pub fn preflight_text(text: &str, origin_x: i64, origin_y: i64, size: i64, width: u32, height: u32) -> (r:
    Result<(), CoreError>)
    requires
        layout_bounded(text@, origin_x, origin_y, size),
    ensures
        r is Ok <==> text_work(text@, origin_x as int, origin_y as int, size as int, width as int, height as int)
            <= MAX_TEXT_WORK,
        r matches Err(e) ==> e == CoreError::SemanticWorkLimitExceeded,
{
    proof {
        lemma_layout_small(text@);
    }
    let (columns, lines) = text_layout(text);
    let columns = columns as i64;
    let lines = lines as i64;
    assert(columns * size <= 262_144 * 1_048_576) by (nonlinear_arith)
        requires
            0 <= columns <= 262_144,
            0 < size <= 1_048_576,
    ;
    assert(lines * size <= 262_145 * 1_048_576) by (nonlinear_arith)
        requires
            0 <= lines <= 262_145,
            0 < size <= 1_048_576,
    ;
    let max_x = origin_x + columns * size;
    let max_y = origin_y + lines * size;
    let pixels: u64 = match clipped_fixed_bounds(origin_x, origin_y, max_x, max_y, width, height) {
        Some((x0, y0, x1, y1)) => {
            let w = (x1 - x0) as u64;
            let h = (y1 - y0) as u64;
            assert(w * h <= 0xFFFF_FFFFu64 * 0xFFFF_FFFFu64) by (nonlinear_arith)
                requires
                    w <= 0xFFFF_FFFFu64,
                    h <= 0xFFFF_FFFFu64,
            ;
            w * h
        },
        None => 0,
    };
    match pixels.checked_mul(16) {
        Some(work) => if work > MAX_TEXT_WORK {
            Err(CoreError::SemanticWorkLimitExceeded)
        } else {
            Ok(())
        },
        None => Err(CoreError::SemanticWorkLimitExceeded),
    }
}

/// The lines of a text's bytes, split at line feeds.
pub open spec fn byte_lines(bytes: Seq<u8>) -> Seq<Seq<u8>>
    decreases bytes.len(),
{
    if bytes.len() == 0 {
        seq![seq![]]
    } else {
        let rest = byte_lines(bytes.drop_last());
        if bytes.last() == 10u8 {
            rest.push(seq![])
        } else {
            rest.update(rest.len() - 1, rest.last().push(bytes.last()))
        }
    }
}

/// The contents of line vectors.
pub open spec fn lines_view(lines: Seq<Vec<u8>>) -> Seq<Seq<u8>> {
    lines.map_values(|line: Vec<u8>| line@)
}

/// Every byte of every line is ASCII, and there are no more lines, and no
/// longer ones, than `limit` allows.
pub open spec fn lines_small(lines: Seq<Seq<u8>>, limit: int) -> bool {
    &&& lines.len() <= limit + 1
    &&& forall|r: int| 0 <= r < lines.len() ==> #[trigger] lines[r].len() <= limit
    &&& forall|r: int, c: int| 0 <= r < lines.len() && 0 <= c < lines[r].len() ==> #[trigger] lines[r][c] < 128
}

/// Splits ASCII bytes into lines at line feeds.
fn split_lines(bytes: &[u8]) -> (lines: Vec<Vec<u8>>)
    requires
        forall|i: int| 0 <= i < bytes@.len() ==> #[trigger] bytes@[i] < 128,
    ensures
        lines_view(lines@) == byte_lines(bytes@),
        lines_small(lines_view(lines@), bytes@.len() as int),
{
    let mut completed: Vec<Vec<u8>> = Vec::new();
    let mut current: Vec<u8> = Vec::new();
    let mut i: usize = 0;
    assert(bytes@.take(0) =~= Seq::<u8>::empty());
    assert(lines_view(completed@).push(current@) =~= seq![Seq::<u8>::empty()]);
    while i < bytes.len()
        invariant
            i <= bytes@.len(),
            forall|k: int| 0 <= k < bytes@.len() ==> #[trigger] bytes@[k] < 128,
            lines_view(completed@).push(current@) == byte_lines(bytes@.take(i as int)),
            lines_small(lines_view(completed@).push(current@), i as int),
        decreases bytes@.len() - i,
    {
        let b = bytes[i];
        let ghost before = lines_view(completed@).push(current@);
        proof {
            assert(bytes@.take(i + 1).drop_last() =~= bytes@.take(i as int));
        }
        if b == 10u8 {
            let mut line: Vec<u8> = Vec::new();
            std::mem::swap(&mut line, &mut current);
            completed.push(line);
            proof {
                assert(lines_view(completed@) =~= before);
                assert(lines_view(completed@).push(current@) =~= before.push(Seq::<u8>::empty()));
            }
        } else {
            current.push(b);
            proof {
                assert(lines_view(completed@).push(current@) =~= before.update(
                    before.len() - 1,
                    before.last().push(b),
                ));
            }
        }
        i = i + 1;
    }
    assert(bytes@.take(bytes@.len() as int) =~= bytes@);
    let ghost before = lines_view(completed@).push(current@);
    completed.push(current);
    assert(lines_view(completed@) =~= before);
    completed
}

/// Offset of sample `k` of a 4x4 grid within a pixel, in 1/256 pixel.
pub open spec fn sample_offset(k: int) -> int {
    32 + 64 * k
}

/// Whether bit `cx` of row `cy` of a glyph bitmap is set.
pub open spec fn glyph_bit(rows: Seq<u8>, cx: int, cy: int) -> bool {
    rows[cy] & (1u8 << (cx as u8)) != 0u8
}

/// Whether the sample point (`px`, `py`) falls on a set bit of the glyph of
/// the character there, characters being `size` squares from the origin.
pub open spec fn sample_hits(lines: Seq<Seq<u8>>, ox: int, oy: int, size: int, px: int, py: int) -> bool {
    let lx = px - ox;
    let ly = py - oy;
    if lx < 0 || ly < 0 {
        false
    } else {
        let row = ly / size;
        let col = lx / size;
        if row >= lines.len() || col >= lines[row].len() {
            false
        } else {
            glyph_bit(
                basic_glyph_rows(lines[row][col] as char),
                (lx % size) * 8 / size,
                (ly % size) * 8 / size,
            )
        }
    }
}

/// How many of the first `n` samples of pixel (`x`, `y`), in row order,
/// fall on a glyph.
pub open spec fn hits(lines: Seq<Seq<u8>>, ox: int, oy: int, size: int, x: int, y: int, n: int) -> nat
    decreases n,
{
    if n <= 0 {
        0
    } else {
        hits(lines, ox, oy, size, x, y, n - 1) + if sample_hits(
            lines,
            ox,
            oy,
            size,
            x * 256 + sample_offset((n - 1) % 4),
            y * 256 + sample_offset((n - 1) / 4),
        ) {
            1nat
        } else {
            0nat
        }
    }
}

/// Coverage of pixel `i` of a `width`-wide canvas by text: the number of
/// its 16 samples on a glyph, for pixels the text touches; zero elsewhere.
pub open spec fn coverage_at(
    text: Seq<char>,
    ox: int,
    oy: int,
    size: int,
    width: int,
    height: int,
    i: int,
) -> u8 {
    let x = i % width;
    let y = i / width;
    match text_pixels(text, ox, oy, size, width, height) {
        Some((x0, y0, x1, y1)) => if x0 <= x < x1 && y0 <= y < y1 {
            hits(byte_lines(encode_utf8(text)), ox, oy, size, x, y, 16) as u8
        } else {
            0
        },
        None => 0,
    }
}

fn sample_hit(lines: &Vec<Vec<u8>>, ox: i64, oy: i64, size: i64, px: i64, py: i64) -> (r: bool)
    requires
        lines_small(lines_view(lines@), MAX_TEXT_CONTENT_BYTES as int),
        -MAX_FIXED_COORDINATE <= ox <= MAX_FIXED_COORDINATE,
        -MAX_FIXED_COORDINATE <= oy <= MAX_FIXED_COORDINATE,
        0 < size <= MAX_FIXED_FONT_SIZE,
        0 <= px < 0x100_0000_0000,
        0 <= py < 0x100_0000_0000,
    ensures
        r == sample_hits(lines_view(lines@), ox as int, oy as int, size as int, px as int, py as int),
{
    let ghost view = lines_view(lines@);
    let lx = px - ox;
    let ly = py - oy;
    if lx < 0 || ly < 0 {
        return false;
    }
    let row = ly / size;
    let col = lx / size;
    if row >= lines.len() as i64 {
        return false;
    }
    let line = &lines[row as usize];
    assert(line@ == view[row as int]);
    if col >= line.len() as i64 {
        return false;
    }
    let byte = line[col as usize];
    assert(byte < 128);
    let rx = lx % size;
    let ry = ly % size;
    assert(0 <= (rx as int) * 8 / (size as int) < 8 && 0 <= (ry as int) * 8 / (size as int) < 8)
        by (nonlinear_arith)
        requires
            0 <= rx < size,
            0 <= ry < size,
    ;
    let cx = rx * 8 / size;
    let cy = ry * 8 / size;
    let glyph = match basic_glyph(byte as char) {
        Some(rows) => rows,
        None => return false,
    };
    glyph[cy as usize] & (1u8 << (cx as u8)) != 0u8
}

fn pixel_hits(lines: &Vec<Vec<u8>>, ox: i64, oy: i64, size: i64, x: u32, y: u32) -> (c: u8)
    requires
        lines_small(lines_view(lines@), MAX_TEXT_CONTENT_BYTES as int),
        -MAX_FIXED_COORDINATE <= ox <= MAX_FIXED_COORDINATE,
        -MAX_FIXED_COORDINATE <= oy <= MAX_FIXED_COORDINATE,
        0 < size <= MAX_FIXED_FONT_SIZE,
    ensures
        c as nat == hits(lines_view(lines@), ox as int, oy as int, size as int, x as int, y as int, 16),
{
    let mut covered: u8 = 0;
    let mut n: i64 = 0;
    while n < 16
        invariant
            0 <= n <= 16,
            covered <= n,
            lines_small(lines_view(lines@), MAX_TEXT_CONTENT_BYTES as int),
            -MAX_FIXED_COORDINATE <= ox <= MAX_FIXED_COORDINATE,
            -MAX_FIXED_COORDINATE <= oy <= MAX_FIXED_COORDINATE,
            0 < size <= MAX_FIXED_FONT_SIZE,
            covered as nat == hits(lines_view(lines@), ox as int, oy as int, size as int, x as int, y as int, n as int),
        decreases 16 - n,
    {
        let px = (x as i64) * 256 + 32 + 64 * (n % 4);
        let py = (y as i64) * 256 + 32 + 64 * (n / 4);
        if sample_hit(lines, ox, oy, size, px, py) {
            covered = covered + 1;
        }
        n = n + 1;
    }
    covered
}

/// Whether pixel `i` has been filled in once rows before `cy`, and pixels
/// of row `cy` before `cx`, of the box have been.
pub open spec fn filled(i: int, width: int, x0: int, x1: int, y0: int, cx: int, cy: int) -> bool {
    let x = i % width;
    let y = i / width;
    &&& x0 <= x < x1
    &&& y0 <= y
    &&& (y < cy || (y == cy && x < cx))
}

pub(crate) proof fn lemma_index(width: int, height: int, x: int, y: int)
    requires
        0 <= x < width,
        0 <= y < height,
    ensures
        0 <= y * width + x < width * height,
        (y * width + x) % width == x,
        (y * width + x) / width == y,
{
    assert(0 <= y * width + x < width * height) by (nonlinear_arith)
        requires
            0 <= x < width,
            0 <= y < height,
    ;
    vstd::arithmetic::div_mod::lemma_fundamental_div_mod_converse(y * width + x, width, y, x);
}

/// How much of each pixel of a `width` x `height` canvas set text covers,
/// in sixteenths: the glyph of each character is its 8x8 bitmap scaled to a
/// `size` square, sampled on a 4x4 grid per pixel. Only pixels the text
/// touches are sampled.
pub fn text_coverage(text: &str, origin_x: i64, origin_y: i64, size: i64, width: u32, height: u32) -> (coverage:
    Vec<u8>)
    requires
        layout_bounded(text@, origin_x, origin_y, size),
        width * height <= usize::MAX,
    ensures
        coverage@.len() == width * height,
        forall|i: int|
            0 <= i < coverage@.len() ==> #[trigger] coverage@[i] == coverage_at(
                text@,
                origin_x as int,
                origin_y as int,
                size as int,
                width as int,
                height as int,
                i,
            ),
{
    proof {
        lemma_layout_small(text@);
        lemma_ascii_encoding(text@);
    }
    let bytes = text.as_bytes();
    assert(bytes@ == encode_utf8(text@));
    assert forall|i: int| 0 <= i < bytes@.len() implies #[trigger] bytes@[i] < 128 by {
        assert(bytes@[i] as u32 == text@[i] as u32);
    }
    let lines = split_lines(bytes);
    let ghost view = lines_view(lines@);
    let (columns, rows) = text_layout(text);
    let columns = columns as i64;
    let rows = rows as i64;
    assert(columns * size <= 262_144 * 1_048_576) by (nonlinear_arith)
        requires
            0 <= columns <= 262_144,
            0 < size <= 1_048_576,
    ;
    assert(rows * size <= 262_145 * 1_048_576) by (nonlinear_arith)
        requires
            0 <= rows <= 262_145,
            0 < size <= 1_048_576,
    ;
    let max_x = origin_x + columns * size;
    let max_y = origin_y + rows * size;
    let w = width as usize;
    let total = w * (height as usize);
    let mut coverage: Vec<u8> = vec![0u8; total];
    let (x0, y0, x1, y1) = match clipped_fixed_bounds(origin_x, origin_y, max_x, max_y, width, height) {
        Some(bounds) => bounds,
        None => {
            proof {
                assert forall|i: int| 0 <= i < coverage@.len() implies #[trigger] coverage@[i] == coverage_at(text@, origin_x as int, origin_y as int, size as int, width as int, height as int, i) by {
                }
            }
            return coverage;
        },
    };
    let mut y = y0;
    while y < y1
        invariant
            y0 <= y <= y1,
            y1 <= height,
            x0 < x1 <= width,
            w == width,
            total == width * height,
            coverage@.len() == total,
            view == lines_view(lines@),
            view == byte_lines(encode_utf8(text@)),
            lines_small(view, MAX_TEXT_CONTENT_BYTES as int),
            layout_bounded(text@, origin_x, origin_y, size),
            text_pixels(text@, origin_x as int, origin_y as int, size as int, width as int, height as int)
                == Some((x0 as int, y0 as int, x1 as int, y1 as int)),
            forall|i: int|
                0 <= i < total ==> #[trigger] coverage@[i] == if filled(
                    i,
                    width as int,
                    x0 as int,
                    x1 as int,
                    y0 as int,
                    x0 as int,
                    y as int,
                ) {
                    coverage_at(text@, origin_x as int, origin_y as int, size as int, width as int, height as int, i)
                } else {
                    0u8
                },
        decreases y1 - y,
    {
        let mut x = x0;
        while x < x1
            invariant
                y0 <= y < y1,
                y1 <= height,
                x0 <= x <= x1,
                x1 <= width,
                w == width,
                total == width * height,
                coverage@.len() == total,
                view == lines_view(lines@),
                view == byte_lines(encode_utf8(text@)),
                lines_small(view, MAX_TEXT_CONTENT_BYTES as int),
                layout_bounded(text@, origin_x, origin_y, size),
                text_pixels(text@, origin_x as int, origin_y as int, size as int, width as int, height as int)
                    == Some((x0 as int, y0 as int, x1 as int, y1 as int)),
                forall|i: int|
                    0 <= i < total ==> #[trigger] coverage@[i] == if filled(
                        i,
                        width as int,
                        x0 as int,
                        x1 as int,
                        y0 as int,
                        x as int,
                        y as int,
                    ) {
                        coverage_at(text@, origin_x as int, origin_y as int, size as int, width as int, height as int, i)
                    } else {
                        0u8
                    },
            decreases x1 - x,
        {
            proof {
                lemma_index(width as int, height as int, x as int, y as int);
            }
            let k = (y as usize) * w + (x as usize);
            let c = pixel_hits(&lines, origin_x, origin_y, size, x, y);
            let ghost before = coverage@;
            coverage.set(k, c);
            proof {
                assert forall|i: int| 0 <= i < total implies #[trigger] coverage@[i] == if filled(
                    i,
                    width as int,
                    x0 as int,
                    x1 as int,
                    y0 as int,
                    x + 1,
                    y as int,
                ) {
                    coverage_at(text@, origin_x as int, origin_y as int, size as int, width as int, height as int, i)
                } else {
                    0u8
                } by {
                    if i == k {
                        assert(i % (width as int) == x && i / (width as int) == y);
                        assert(filled(i, width as int, x0 as int, x1 as int, y0 as int, x + 1, y as int));
                        assert(c as nat == hits(view, origin_x as int, origin_y as int, size as int, x as int, y as int, 16));
                        assert(coverage_at(
                            text@,
                            origin_x as int,
                            origin_y as int,
                            size as int,
                            width as int,
                            height as int,
                            i,
                        ) == hits(view, origin_x as int, origin_y as int, size as int, x as int, y as int, 16) as u8);
                        assert(coverage_at(text@, origin_x as int, origin_y as int, size as int, width as int, height as int, i) == coverage_at(
                            text@,
                            origin_x as int,
                            origin_y as int,
                            size as int,
                            width as int,
                            height as int,
                            i,
                        ));
                    } else {
                        assert(before[i] == coverage@[i]);
                        vstd::arithmetic::div_mod::lemma_fundamental_div_mod(i, width as int);
                        if i % (width as int) == x && i / (width as int) == y {
                            assert(i == (y as int) * (width as int) + (x as int)) by (nonlinear_arith)
                                requires
                                    i == (width as int) * (i / (width as int)) + i % (width as int),
                                    i % (width as int) == x,
                                    i / (width as int) == y,
                            ;
                        }
                        assert(filled(i, width as int, x0 as int, x1 as int, y0 as int, x + 1, y as int)
                            == filled(i, width as int, x0 as int, x1 as int, y0 as int, x as int, y as int));
                    }
                }
            }
            x = x + 1;
        }
        proof {
            assert forall|i: int| 0 <= i < total implies #[trigger] coverage@[i] == if filled(
                i,
                width as int,
                x0 as int,
                x1 as int,
                y0 as int,
                x0 as int,
                y + 1,
            ) {
                coverage_at(text@, origin_x as int, origin_y as int, size as int, width as int, height as int, i)
            } else {
                0u8
            } by {
                assert(filled(i, width as int, x0 as int, x1 as int, y0 as int, x0 as int, y + 1)
                    == filled(i, width as int, x0 as int, x1 as int, y0 as int, x1 as int, y as int));
            }
        }
        y = y + 1;
    }
    proof {
        assert forall|i: int| 0 <= i < coverage@.len() implies #[trigger] coverage@[i] == coverage_at(text@, origin_x as int, origin_y as int, size as int, width as int, height as int, i) by {
            if 0 <= i < total {
                vstd::arithmetic::div_mod::lemma_fundamental_div_mod(i, width as int);
                assert(0 <= i / (width as int)) by (nonlinear_arith)
                    requires
                        0 <= i,
                        width > 0,
                ;
            }
        }
    }
    coverage
}

} // verus!
