//! Integer pixel filters on straight-alpha RGBA8 buffers, and the blend that
//! limits a filter to the selection.

use vstd::prelude::*;

use crate::canvas::document::valid_dimensions;
use crate::canvas::error::CoreError;
use crate::canvas::selection::{
    coverage_spec, SelectionView, index_of, lemma_line_index_bounds, lemma_line_index_injective, lemma_line_of, line_index,
    line_of, pass_shape, position_of, Selection,
};

verus! {

pub const MAX_FILTER_RADIUS: u32 = 4_096;

/// Rejects a blur radius of zero or beyond the supported maximum.
pub fn validate_radius(radius: u32) -> (r: Result<(), CoreError>)
    ensures
        r is Ok <==> 0 < radius <= MAX_FILTER_RADIUS,
        r is Err ==> (r matches Err(CoreError::InvalidFilterParameter)),
{
    if radius == 0 || radius > MAX_FILTER_RADIUS {
        Err(CoreError::InvalidFilterParameter)
    } else {
        Ok(())
    }
}

/// Whether byte `i` is a color channel of a whole pixel; bytes after the
/// last whole pixel and alpha bytes are not.
pub open spec fn is_color_byte(len: int, i: int) -> bool {
    i < len / 4 * 4 && i % 4 != 3
}

/// Alpha of the pixel that holds byte `i`.
pub open spec fn alpha_of(pixels: Seq<u8>, i: int) -> u8 {
    pixels[i - i % 4 + 3]
}

/// Colors complemented, alpha kept.
pub open spec fn inverted_colors(pixels: Seq<u8>) -> Seq<u8> {
    Seq::new(
        pixels.len(),
        |i: int|
            if is_color_byte(pixels.len() as int, i) {
                (255 - pixels[i]) as u8
            } else {
                pixels[i]
            },
    )
}

/// One channel reduced to `levels` evenly spaced values.
pub open spec fn posterize_value(value: u8, levels: u16) -> u8 {
    let last = levels - 1;
    let bucket = (value * last + 127) / 255;
    ((bucket * 255 + last / 2) / last) as u8
}

/// Colors posterized, alpha kept.
pub open spec fn posterized(pixels: Seq<u8>, levels: u16) -> Seq<u8> {
    Seq::new(
        pixels.len(),
        |i: int|
            if is_color_byte(pixels.len() as int, i) {
                posterize_value(pixels[i], levels)
            } else {
                pixels[i]
            },
    )
}

/// Colors multiplied by alpha, rounding to nearest.
pub open spec fn premultiplied(pixels: Seq<u8>) -> Seq<u8> {
    Seq::new(
        pixels.len(),
        |i: int|
            if is_color_byte(pixels.len() as int, i) {
                ((pixels[i] * alpha_of(pixels, i) + 127) / 255) as u8
            } else {
                pixels[i]
            },
    )
}

/// Colors divided by alpha, rounding to nearest and capped at 255; fully
/// transparent pixels become all zero.
pub open spec fn unpremultiplied(pixels: Seq<u8>) -> Seq<u8> {
    Seq::new(
        pixels.len(),
        |i: int|
            if i < pixels.len() / 4 * 4 && alpha_of(pixels, i) == 0 {
                0u8
            } else if is_color_byte(pixels.len() as int, i) {
                let v = (pixels[i] * 255 + alpha_of(pixels, i) / 2) / (alpha_of(pixels, i) as int);
                if v > 255 {
                    255u8
                } else {
                    v as u8
                }
            } else {
                pixels[i]
            },
    )
}

/// Complements the color channels of every whole pixel.
pub fn invert_colors(pixels: &mut Vec<u8>)
    ensures
        final(pixels)@ == inverted_colors(old(pixels)@),
{
    let ghost before = pixels@;
    let len = pixels.len();
    let whole = len / 4 * 4;
    let mut i: usize = 0;
    while i < whole
        invariant
            len == before.len(),
            whole == len / 4 * 4,
            pixels@.len() == len,
            i <= whole,
            forall|k: int| 0 <= k < i ==> pixels@[k] == #[trigger] inverted_colors(before)[k],
            forall|k: int| i <= k < len ==> pixels@[k] == before[k],
        decreases whole - i,
    {
        if i % 4 != 3 {
            let v = pixels[i];
            pixels.set(i, 255 - v);
        }
        i = i + 1;
    }
    proof {
        assert(pixels@ =~= inverted_colors(before));
    }
}

/// Reduces every color channel to `levels` values; `levels` must lie in
/// `2..=256`.
pub fn posterize(pixels: &mut Vec<u8>, levels: u16) -> (r: Result<(), CoreError>)
    ensures
        r is Ok <==> 2 <= levels <= 256,
        r is Err ==> (r matches Err(CoreError::InvalidFilterParameter)) && final(pixels)@ == old(pixels)@,
        r is Ok ==> final(pixels)@ == posterized(old(pixels)@, levels),
{
    if levels < 2 || levels > 256 {
        return Err(CoreError::InvalidFilterParameter);
    }
    let ghost before = pixels@;
    let last = (levels - 1) as u32;
    let len = pixels.len();
    let whole = len / 4 * 4;
    let mut i: usize = 0;
    while i < whole
        invariant
            len == before.len(),
            whole == len / 4 * 4,
            pixels@.len() == len,
            2 <= levels <= 256,
            last == levels - 1,
            i <= whole,
            forall|k: int| 0 <= k < i ==> pixels@[k] == #[trigger] posterized(before, levels)[k],
            forall|k: int| i <= k < len ==> pixels@[k] == before[k],
        decreases whole - i,
    {
        if i % 4 != 3 {
            let v = pixels[i] as u32;
            assert(v * last <= 255 * 255) by (nonlinear_arith)
                requires
                    v <= 255,
                    last <= 255,
            ;
            let bucket = (v * last + 127) / 255;
            assert(bucket <= last) by (nonlinear_arith)
                requires
                    bucket == (v * last + 127) / 255,
                    v <= 255,
                    last >= 1,
            ;
            assert(bucket * 255 <= 255 * 255) by (nonlinear_arith)
                requires
                    bucket <= last,
                    last <= 255,
            ;
            let value = (bucket * 255 + last / 2) / last;
            assert(value <= 255) by (nonlinear_arith)
                requires
                    value == (bucket * 255 + last / 2) as int / (last as int),
                    bucket <= last,
                    last >= 1,
            ;
            pixels.set(i, value as u8);
        }
        i = i + 1;
    }
    proof {
        assert(pixels@ =~= posterized(before, levels));
    }
    Ok(())
}

/// Multiplies color channels by alpha.
pub fn premultiply(input: &[u8]) -> (output: Vec<u8>)
    ensures
        output@ == premultiplied(input@),
{
    let len = input.len();
    let whole = len / 4 * 4;
    let mut output: Vec<u8> = Vec::with_capacity(len);
    let mut i: usize = 0;
    while i < len
        invariant
            len == input@.len(),
            whole == len / 4 * 4,
            i <= len,
            output@.len() == i,
            forall|k: int| 0 <= k < i ==> output@[k] == #[trigger] premultiplied(input@)[k],
        decreases len - i,
    {
        if i < whole && i % 4 != 3 {
            assert(i - i % 4 + 3 < whole) by (nonlinear_arith)
                requires
                    i < whole,
                    whole == len / 4 * 4,
            ;
            let alpha = input[i - i % 4 + 3] as u16;
            let c = input[i] as u16;
            assert(c * alpha <= 255 * 255) by (nonlinear_arith)
                requires
                    c <= 255,
                    alpha <= 255,
            ;
            let value = (c * alpha + 127) / 255;
            output.push(value as u8);
        } else {
            output.push(input[i]);
        }
        i = i + 1;
    }
    proof {
        assert(output@ =~= premultiplied(input@));
    }
    output
}

/// Divides color channels by alpha; clears fully transparent pixels.
pub fn unpremultiply(input: Vec<u8>) -> (output: Vec<u8>)
    ensures
        output@ == unpremultiplied(input@),
{
    let len = input.len();
    let whole = len / 4 * 4;
    let mut output: Vec<u8> = Vec::with_capacity(len);
    let mut i: usize = 0;
    while i < len
        invariant
            len == input@.len(),
            whole == len / 4 * 4,
            i <= len,
            output@.len() == i,
            forall|k: int| 0 <= k < i ==> output@[k] == #[trigger] unpremultiplied(input@)[k],
        decreases len - i,
    {
        if i < whole {
            assert(i - i % 4 + 3 < whole) by (nonlinear_arith)
                requires
                    i < whole,
                    whole == len / 4 * 4,
            ;
            let alpha = input[i - i % 4 + 3] as u16;
            if alpha == 0 {
                output.push(0);
            } else if i % 4 != 3 {
                let c = input[i] as u16;
                assert(c * 255 <= 255 * 255) by (nonlinear_arith)
                    requires
                        c <= 255,
                ;
                let v = (c * 255 + alpha / 2) / alpha;
                let capped = if v > 255 {
                    255
                } else {
                    v
                };
                output.push(capped as u8);
            } else {
                output.push(input[i]);
            }
        } else {
            output.push(input[i]);
        }
        i = i + 1;
    }
    proof {
        assert(output@ =~= unpremultiplied(input@));
    }
    output
}

/// Sum of one channel over positions `start..end` of one line of an RGBA
/// image.
pub open spec fn channel_sum(
    input: Seq<u8>,
    width: int,
    line: int,
    horizontal: bool,
    channel: int,
    start: int,
    end: int,
) -> int
    decreases end - start,
{
    if end <= start {
        0
    } else {
        channel_sum(input, width, line, horizontal, channel, start, end - 1) + input[line_index(
            width,
            line,
            end - 1,
            horizontal,
        ) * 4 + channel] as int
    }
}

/// Average of one channel over the part of the window of `radius` on each
/// side that lies on the line, rounding half up.
pub open spec fn rgba_box_value(
    input: Seq<u8>,
    width: int,
    line_len: int,
    line: int,
    position: int,
    radius: int,
    horizontal: bool,
    channel: int,
) -> int {
    let start = if position - radius > 0 {
        position - radius
    } else {
        0
    };
    let end = if position + radius + 1 < line_len {
        position + radius + 1
    } else {
        line_len
    };
    (channel_sum(input, width, line, horizontal, channel, start, end) + (end - start) / 2) / (end - start)
}

/// A whole RGBA box-blur pass.
pub open spec fn rgba_blur(input: Seq<u8>, width: int, height: int, radius: int, horizontal: bool) -> Seq<u8> {
    Seq::new(
        input.len(),
        |i: int|
            rgba_box_value(
                input,
                width,
                pass_shape(width, height, horizontal).1,
                line_of(width, i / 4, horizontal),
                position_of(width, i / 4, horizontal),
                radius,
                horizontal,
                i % 4,
            ) as u8,
    )
}

proof fn lemma_channel_sum_split(
    input: Seq<u8>,
    width: int,
    line: int,
    horizontal: bool,
    channel: int,
    a: int,
    b: int,
    c: int,
)
    requires
        a <= b <= c,
    ensures
        channel_sum(input, width, line, horizontal, channel, a, c) == channel_sum(
            input,
            width,
            line,
            horizontal,
            channel,
            a,
            b,
        ) + channel_sum(input, width, line, horizontal, channel, b, c),
    decreases c - b,
{
    if b < c {
        lemma_channel_sum_split(input, width, line, horizontal, channel, a, b, c - 1);
    }
}

proof fn lemma_channel_sum_bound(
    input: Seq<u8>,
    width: int,
    line: int,
    horizontal: bool,
    channel: int,
    a: int,
    b: int,
)
    ensures
        0 <= channel_sum(input, width, line, horizontal, channel, a, b),
        a <= b ==> channel_sum(input, width, line, horizontal, channel, a, b) <= 255 * (b - a),
    decreases b - a,
{
    if a < b {
        lemma_channel_sum_bound(input, width, line, horizontal, channel, a, b - 1);
    }
}

/// Byte of channel `c` at position `p` of line `l`.
pub open spec fn rgba_index(width: int, l: int, p: int, horizontal: bool, c: int) -> int {
    line_index(width, l, p, horizontal) * 4 + c
}

/// Whether output entry (line, channel, position) of a pass was written
/// before the cursor (`line`, `channel`, `position`).
pub open spec fn written_before(l: int, c: int, p: int, line: int, channel: int, position: int) -> bool {
    l < line || (l == line && (c < channel || (c == channel && p < position)))
}

/// One pass of an RGBA box blur along rows (`horizontal`) or columns; each
/// channel becomes its average over the part of the window on the line.
pub fn box_blur_rgba_pass(input: &[u8], width: u32, height: u32, radius: u32, horizontal: bool) -> (output: Vec<
    u8,
>)
    requires
        valid_dimensions(width, height),
        input@.len() == width * height * 4,
        radius <= MAX_FILTER_RADIUS,
    ensures
        output@ == rgba_blur(input@, width as int, height as int, radius as int, horizontal),
{
    let w = width as usize;
    let h = height as usize;
    let total = input.len();
    let mut output: Vec<u8> = vec![0u8; total];
    let lines: usize = if horizontal { h } else { w };
    let line_len: usize = if horizontal { w } else { h };
    let ghost wi = width as int;
    let ghost hi = height as int;
    let ghost expected = rgba_blur(input@, wi, hi, radius as int, horizontal);
    proof {
        assert(w * h <= 32768 * 32768) by (nonlinear_arith)
            requires
                w <= 32768,
                h <= 32768,
        ;
    }
    let mut line: usize = 0;
    while line < lines
        invariant
            w == width,
            h == height,
            wi == width,
            hi == height,
            total == input@.len(),
            total == w * h * 4,
            valid_dimensions(width, height),
            radius <= MAX_FILTER_RADIUS,
            lines == pass_shape(wi, hi, horizontal).0,
            line_len == pass_shape(wi, hi, horizontal).1,
            expected == rgba_blur(input@, wi, hi, radius as int, horizontal),
            line <= lines,
            output@.len() == total,
            forall|l: int, c: int, p: int|
                    #![trigger output@[rgba_index(wi, l, p, horizontal, c)]]
                0 <= l < line && 0 <= c < 4 && 0 <= p < line_len ==> output@[rgba_index(wi, l, p, horizontal, c)] == rgba_box_value(input@, wi, line_len as int, l, p, radius as int, horizontal, c),
        decreases lines - line,
    {
        let mut channel: usize = 0;
        while channel < 4
            invariant
                w == width,
                h == height,
                wi == width,
                hi == height,
                total == input@.len(),
                total == w * h * 4,
                valid_dimensions(width, height),
                radius <= MAX_FILTER_RADIUS,
                lines == pass_shape(wi, hi, horizontal).0,
                line_len == pass_shape(wi, hi, horizontal).1,
                line < lines,
                channel <= 4,
                output@.len() == total,
                forall|l: int, c: int, p: int|
                    #![trigger output@[rgba_index(wi, l, p, horizontal, c)]]
                    0 <= c < 4 && 0 <= p < line_len && 0 <= l && written_before(l, c, p, line as int, channel as int, 0)
                        ==> output@[rgba_index(wi, l, p, horizontal, c)] == rgba_box_value(
                        input@,
                        wi,
                        line_len as int,
                        l,
                        p,
                        radius as int,
                        horizontal,
                        c,
                    ),
            decreases 4 - channel,
        {
            let mut prefix: Vec<u64> = Vec::new();
            prefix.push(0);
            let mut position: usize = 0;
            while position < line_len
                invariant
                    w == width,
                    h == height,
                    wi == width,
                    hi == height,
                    total == input@.len(),
                    total == w * h * 4,
                    valid_dimensions(width, height),
                    lines == pass_shape(wi, hi, horizontal).0,
                    line_len == pass_shape(wi, hi, horizontal).1,
                    line < lines,
                    channel < 4,
                    position <= line_len,
                    prefix@.len() == position + 1,
                    forall|k: int|
                        0 <= k <= position ==> prefix@[k] == channel_sum(
                            input@,
                            wi,
                            line as int,
                            horizontal,
                            channel as int,
                            0,
                            k,
                        ) as u64 && 0 <= channel_sum(input@, wi, line as int, horizontal, channel as int, 0, k) <= 255
                            * k,
                decreases line_len - position,
            {
                let pixel = index_of(w, h, line, position, horizontal);
                proof {
                    lemma_channel_sum_bound(input@, wi, line as int, horizontal, channel as int, 0, position + 1);
                    assert(line_len <= 32768);
                }
                let next = prefix[position] + input[pixel * 4 + channel] as u64;
                prefix.push(next);
                position = position + 1;
            }
            let mut position: usize = 0;
            while position < line_len
                invariant
                    w == width,
                    h == height,
                    wi == width,
                    hi == height,
                    total == input@.len(),
                    total == w * h * 4,
                    valid_dimensions(width, height),
                    radius <= MAX_FILTER_RADIUS,
                    lines == pass_shape(wi, hi, horizontal).0,
                    line_len == pass_shape(wi, hi, horizontal).1,
                    line < lines,
                    channel < 4,
                    position <= line_len,
                    output@.len() == total,
                    prefix@.len() == line_len + 1,
                    forall|k: int|
                        0 <= k <= line_len ==> prefix@[k] == channel_sum(
                            input@,
                            wi,
                            line as int,
                            horizontal,
                            channel as int,
                            0,
                            k,
                        ) as u64,
                    forall|l: int, c: int, p: int|
                    #![trigger output@[rgba_index(wi, l, p, horizontal, c)]]
                        0 <= c < 4 && 0 <= p < line_len && 0 <= l && written_before(
                            l,
                            c,
                            p,
                            line as int,
                            channel as int,
                            position as int,
                        ) ==> output@[rgba_index(wi, l, p, horizontal, c)] == rgba_box_value(
                            input@,
                            wi,
                            line_len as int,
                            l,
                            p,
                            radius as int,
                            horizontal,
                            c,
                        ),
                decreases line_len - position,
            {
                let r = radius as usize;
                let start = if position > r {
                    position - r
                } else {
                    0
                };
                let end = if position + r + 1 < line_len {
                    position + r + 1
                } else {
                    line_len
                };
                proof {
                    lemma_channel_sum_split(input@, wi, line as int, horizontal, channel as int, 0, start as int, end as int);
                    lemma_channel_sum_bound(input@, wi, line as int, horizontal, channel as int, start as int, end as int);
                    lemma_channel_sum_bound(input@, wi, line as int, horizontal, channel as int, 0, start as int);
                }
                let sum = prefix[end] - prefix[start];
                let count = (end - start) as u64;
                let value = (sum + count / 2) / count;
                assert(value <= 255) by (nonlinear_arith)
                    requires
                        value == (sum + count / 2) as int / (count as int),
                        sum <= 255 * count,
                        count >= 1,
                ;
                let pixel = index_of(w, h, line, position, horizontal);
                let index = pixel * 4 + channel;
                let ghost prior = output@;
                output.set(index, value as u8);
                proof {
                    assert forall|l: int, c: int, p: int|
                    #![trigger output@[rgba_index(wi, l, p, horizontal, c)]]
                        0 <= c < 4 && 0 <= p < line_len && 0 <= l && written_before(
                            l,
                            c,
                            p,
                            line as int,
                            channel as int,
                            position + 1,
                        ) implies output@[rgba_index(wi, l, p, horizontal, c)] == rgba_box_value(
                            input@,
                            wi,
                            line_len as int,
                            l,
                            p,
                            radius as int,
                            horizontal,
                            c,
                        ) by {
                        if l < lines {
                            lemma_line_index_bounds(wi, hi, l, p, horizontal);
                        }
                        if !(l == line && c == channel && p == position) {
                            if l < lines && line_index(wi, l, p, horizontal) == pixel {
                                lemma_line_index_injective(wi, hi, l, p, line as int, position as int, horizontal);
                            }
                            assert(prior[rgba_index(wi, l, p, horizontal, c)] == rgba_box_value(
                                input@,
                                wi,
                                line_len as int,
                                l,
                                p,
                                radius as int,
                                horizontal,
                                c,
                            ));
                        }
                    }
                }
                position = position + 1;
            }
            channel = channel + 1;
        }
        line = line + 1;
    }
    proof {
        assert forall|i: int| 0 <= i < total implies output@[i] == expected[i] by {
            let pixel = i / 4;
            assert(0 <= pixel < wi * hi);
            lemma_line_of(wi, hi, pixel, horizontal);
            assert(pixel * 4 + i % 4 == i);
            let l = line_of(wi, pixel, horizontal);
            let p = position_of(wi, pixel, horizontal);
            assert(rgba_index(wi, l, p, horizontal, i % 4) == i);
            assert(output@[rgba_index(wi, l, p, horizontal, i % 4)] == rgba_box_value(
                input@,
                wi,
                line_len as int,
                l,
                p,
                radius as int,
                horizontal,
                i % 4,
            ));
        }
        assert(output@ =~= expected);
    }
    output
}

/// Box blur of radius `radius` on a straight-alpha RGBA image: colors are
/// premultiplied, blurred along rows and then columns, and divided back.
pub fn box_blur_rgba(input: &[u8], width: u32, height: u32, radius: u32) -> (output: Vec<u8>)
    requires
        valid_dimensions(width, height),
        input@.len() == width * height * 4,
        radius <= MAX_FILTER_RADIUS,
    ensures
        output@ == unpremultiplied(
            rgba_blur(
                rgba_blur(premultiplied(input@), width as int, height as int, radius as int, true),
                width as int,
                height as int,
                radius as int,
                false,
            ),
        ),
{
    let premultiplied = premultiply(input);
    let horizontal = box_blur_rgba_pass(premultiplied.as_slice(), width, height, radius, true);
    let vertical = box_blur_rgba_pass(horizontal.as_slice(), width, height, radius, false);
    unpremultiply(vertical)
}

/// Weight of the filtered value at pixel `pixel`: the selection coverage.
pub open spec fn blend_amount(selection: SelectionView, pixel: int) -> u8 {
    coverage_spec(selection, (pixel % (selection.width as int)) as u32, (pixel / (selection.width as int)) as u32)
}

/// Filtered pixels mixed back with the originals by selection coverage:
/// fully selected pixels keep the filtered value.
pub open spec fn blended(selection: SelectionView, original: Seq<u8>, filtered: Seq<u8>) -> Seq<u8> {
    Seq::new(
        filtered.len(),
        |i: int|
            {
                let amount = blend_amount(selection, i / 4);
                if amount == 255 {
                    filtered[i]
                } else {
                    ((filtered[i] * amount + original[i] * (255 - amount) + 127) / 255) as u8
                }
            },
    )
}

/// Limits a filter to the selection: each pixel of `filtered` becomes the
/// mix of the filtered and original pixel weighted by its coverage.
pub fn blend_selection(selection: &Selection, original: &[u8], filtered: &mut Vec<u8>)
    requires
        selection.well_formed(),
        original@.len() == selection@.width * selection@.height * 4,
        old(filtered)@.len() == original@.len(),
    ensures
        final(filtered)@ == blended(selection@, original@, old(filtered)@),
{
    let ghost before = filtered@;
    let ghost sel = selection@;
    let width = selection.width();
    let height = selection.height();
    let pixels = (width as usize) * (height as usize);
    proof {
        assert(width * height <= 32768 * 32768) by (nonlinear_arith)
            requires
                width <= 32768,
                height <= 32768,
        ;
    }
    let mut index: usize = 0;
    while index < pixels
        invariant
            sel == selection@,
            selection.well_formed(),
            width == sel.width,
            height == sel.height,
            pixels == width * height,
            pixels <= 32768 * 32768,
            original@.len() == pixels * 4,
            filtered@.len() == pixels * 4,
            before.len() == pixels * 4,
            index <= pixels,
            forall|k: int| 0 <= k < index * 4 ==> filtered@[k] == #[trigger] blended(sel, original@, before)[k],
            forall|k: int| index * 4 <= k < pixels * 4 ==> filtered@[k] == before[k],
        decreases pixels - index,
    {
        let x = (index as u32) % width;
        let y = (index as u32) / width;
        let amount = selection.coverage(x, y) as u16;
        proof {
            assert(amount == blend_amount(sel, index as int));
        }
        if amount != 255 {
            let mut channel: usize = 0;
            while channel < 4
                invariant
                    index < pixels,
                    pixels <= 32768 * 32768,
                    original@.len() == pixels * 4,
                    filtered@.len() == pixels * 4,
                    before.len() == pixels * 4,
                    amount == blend_amount(sel, index as int),
                    amount != 255,
                    channel <= 4,
                    forall|k: int| 0 <= k < index * 4 + channel ==> filtered@[k] == #[trigger] blended(
                        sel,
                        original@,
                        before,
                    )[k],
                    forall|k: int| index * 4 + channel <= k < pixels * 4 ==> filtered@[k] == before[k],
                decreases 4 - channel,
            {
                let k = index * 4 + channel;
                let out = filtered[k] as u16;
                let input = original[k] as u16;
                assert(out * amount + input * (255 - amount) + 127 <= 255 * 255 + 127) by (nonlinear_arith)
                    requires
                        out <= 255,
                        input <= 255,
                        amount < 255,
                ;
                let mixed = (out * amount + input * (255 - amount) + 127) / 255;
                proof {
                    assert(k / 4 == index);
                }
                filtered.set(k, mixed as u8);
                channel = channel + 1;
            }
        } else {
            proof {
                assert forall|k: int| index * 4 <= k < index * 4 + 4 implies filtered@[k] == #[trigger] blended(
                    sel,
                    original@,
                    before,
                )[k] by {
                    assert(k / 4 == index);
                }
            }
        }
        index = index + 1;
    }
    proof {
        assert(filtered@ =~= blended(sel, original@, before));
    }
}

/// The filters that work on integers alone.
#[derive(Clone, Copy, Debug, PartialEq, Eq)]
pub enum IntegerFilter {
    /// Complements the color channels.
    Invert,
    /// Reduces each color channel to `levels` values.
    Posterize { levels: u16 },
    /// Box blur of the given radius.
    BoxBlur { radius: u32 },
}

/// Whether a filter's parameters are accepted.
pub open spec fn filter_accepts(filter: IntegerFilter) -> bool {
    match filter {
        IntegerFilter::Invert => true,
        IntegerFilter::Posterize { levels } => 2 <= levels <= 256,
        IntegerFilter::BoxBlur { radius } => 0 < radius <= MAX_FILTER_RADIUS,
    }
}

/// The unmasked result of a filter on a canvas of `width` by `height`.
pub open spec fn filter_spec(pixels: Seq<u8>, width: u32, height: u32, filter: IntegerFilter) -> Seq<u8> {
    match filter {
        IntegerFilter::Invert => inverted_colors(pixels),
        IntegerFilter::Posterize { levels } => posterized(pixels, levels),
        IntegerFilter::BoxBlur { radius } => unpremultiplied(
            rgba_blur(
                rgba_blur(premultiplied(pixels), width as int, height as int, radius as int, true),
                width as int,
                height as int,
                radius as int,
                false,
            ),
        ),
    }
}

/// Applies a filter to a canvas's pixels within the selection: the filter
/// runs on the whole canvas and the result is mixed back with the original
/// pixels by selection coverage. Refused parameters leave the pixels as
/// they were.
pub fn apply_filter(pixels: &mut Vec<u8>, selection: &Selection, filter: IntegerFilter) -> (r: Result<
    (),
    CoreError,
>)
    requires
        selection.well_formed(),
        old(pixels)@.len() == selection@.width * selection@.height * 4,
    ensures
        r is Ok <==> filter_accepts(filter),
        r is Err ==> r == Err::<(), CoreError>(CoreError::InvalidFilterParameter) && final(pixels)@ == old(
            pixels,
        )@,
        r is Ok ==> final(pixels)@ == blended(
            selection@,
            old(pixels)@,
            filter_spec(old(pixels)@, selection@.width, selection@.height, filter),
        ),
{
    let width = selection.width();
    let height = selection.height();
    let mut filtered = match filter {
        IntegerFilter::Invert => {
            let mut out = pixels.clone();
            invert_colors(&mut out);
            out
        },
        IntegerFilter::Posterize { levels } => {
            let mut out = pixels.clone();
            match posterize(&mut out, levels) {
                Ok(()) => out,
                Err(e) => return Err(e),
            }
        },
        IntegerFilter::BoxBlur { radius } => {
            match validate_radius(radius) {
                Ok(()) => {},
                Err(e) => return Err(e),
            }
            box_blur_rgba(pixels.as_slice(), width, height, radius)
        },
    };
    blend_selection(selection, pixels.as_slice(), &mut filtered);
    *pixels = filtered;
    Ok(())
}

/// Complementing the colors twice gives the pixels back.
pub proof fn law_invert_colors_twice(pixels: Seq<u8>)
    ensures
        inverted_colors(inverted_colors(pixels)) == pixels,
{
    assert(inverted_colors(inverted_colors(pixels)) =~= pixels);
}

/// Fully opaque pixels come back unchanged from premultiplying and dividing
/// again.
pub proof fn law_opaque_premultiply_roundtrip(pixels: Seq<u8>)
    requires
        forall|i: int| 0 <= i < pixels.len() / 4 * 4 && i % 4 == 3 ==> pixels[i] == 255,
    ensures
        unpremultiplied(premultiplied(pixels)) == pixels,
{
    let p = premultiplied(pixels);
    assert forall|i: int| 0 <= i < pixels.len() implies #[trigger] unpremultiplied(p)[i] == pixels[i] by {
        if i < pixels.len() / 4 * 4 {
            let b = i - i % 4 + 3;
            assert(0 <= b < pixels.len() / 4 * 4 && b % 4 == 3);
            assert(pixels[b] == 255);
            assert(p[b] == 255);
            if i % 4 != 3 {
                let c = pixels[i];
                assert((c * 255 + 127) / 255 == c) by (nonlinear_arith)
                    requires
                        c <= 255,
                ;
                assert(p[i] == c);
                assert((c * 255 + 127) / 255 == c && 255u8 / 2 == 127) by (nonlinear_arith)
                    requires
                        c <= 255,
                ;
            }
        }
    }
    assert(unpremultiplied(p) =~= pixels);
}

/// A filter leaves unselected pixels exactly as they were and keeps its
/// result on fully selected ones.
pub proof fn law_blend_respects_selection(selection: SelectionView, original: Seq<u8>, filtered: Seq<u8>, i: int)
    requires
        filtered.len() == original.len(),
        0 <= i < filtered.len(),
    ensures
        blend_amount(selection, i / 4) == 0 ==> blended(selection, original, filtered)[i] == original[i],
        blend_amount(selection, i / 4) == 255 ==> blended(selection, original, filtered)[i] == filtered[i],
{
    let o = original[i];
    assert((o * 255 + 127) / 255 == o) by (nonlinear_arith)
        requires
            o <= 255,
    ;
}

/// Applying a filter leaves every byte of an unselected pixel as it was,
/// and gives a fully selected pixel the filter's own result.
pub proof fn law_filter_respects_selection(
    selection: SelectionView,
    pixels: Seq<u8>,
    filter: IntegerFilter,
    i: int,
)
    requires
        0 <= i < pixels.len(),
    ensures
        blend_amount(selection, i / 4) == 0 ==> blended(
            selection,
            pixels,
            filter_spec(pixels, selection.width, selection.height, filter),
        )[i] == pixels[i],
        blend_amount(selection, i / 4) == 255 ==> blended(
            selection,
            pixels,
            filter_spec(pixels, selection.width, selection.height, filter),
        )[i] == filter_spec(pixels, selection.width, selection.height, filter)[i],
{
    let filtered = filter_spec(pixels, selection.width, selection.height, filter);
    assert(filtered.len() == pixels.len());
    law_blend_respects_selection(selection, pixels, filtered, i);
}

} // verus!
