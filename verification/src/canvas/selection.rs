//! An optional 8-bit grayscale selection mask. An inactive selection selects
//! every canvas pixel; once active, mask value 0 excludes a pixel and 255
//! includes it completely.

use std::collections::VecDeque;

use vstd::prelude::*;
use vstd::string::StringExecFns;

use crate::canvas::document::{crop_bytes, crop_spec, pixel_count, valid_dimensions, Rect};
use crate::canvas::error::CoreError;
use crate::canvas::raster::RasterBytes;

verus! {

pub const MAX_SELECTION_RADIUS: u32 = 4_096;

/// How a new shape combines with the existing selection.
#[derive(Clone, Copy, Debug, Default, PartialEq, Eq, Structural)]
pub enum SelectionMode {
    #[default]
    Replace,
    Add,
    Subtract,
    Intersect,
}

/// A selection: canvas size, whether it is active, and its coverage mask.
#[derive(Clone, Debug)]
pub struct Selection {
    width: u32,
    height: u32,
    active: bool,
    mask: RasterBytes,
}

/// Abstract selection.
pub struct SelectionView {
    pub width: u32,
    pub height: u32,
    pub active: bool,
    pub mask: Seq<u8>,
}

impl View for Selection {
    type V = SelectionView;

    closed spec fn view(&self) -> SelectionView {
        SelectionView {
            width: self.width,
            height: self.height,
            active: self.active,
            mask: self.mask@,
        }
    }
}

/// Position of entry `position` of `line` in a row-major `width`-wide mask,
/// walking rows when `horizontal` and columns otherwise.
pub open spec fn line_index(width: int, line: int, position: int, horizontal: bool) -> int {
    if horizontal {
        line * width + position
    } else {
        position * width + line
    }
}

/// Sum of `input` over positions `start..end` of one line.
pub open spec fn line_sum(
    input: Seq<u8>,
    width: int,
    line: int,
    horizontal: bool,
    start: int,
    end: int,
) -> int
    decreases end - start,
{
    if end <= start {
        0
    } else {
        line_sum(input, width, line, horizontal, start, end - 1) + input[line_index(
            width,
            line,
            end - 1,
            horizontal,
        )] as int
    }
}

/// Box average of one mask entry: the sum over the part of the window of
/// `radius` on each side that lies on the line, divided (rounding half up)
/// by the full window size `2 * radius + 1`.
pub open spec fn box_value(
    input: Seq<u8>,
    width: int,
    line_len: int,
    line: int,
    position: int,
    radius: int,
    horizontal: bool,
) -> int {
    let start = if position - radius > 0 { position - radius } else { 0 };
    let end = if position + radius + 1 < line_len { position + radius + 1 } else { line_len };
    let divisor = 2 * radius + 1;
    (line_sum(input, width, line, horizontal, start, end) + divisor / 2) / divisor
}

/// Number of lines and their length for a pass in one direction.
pub open spec fn pass_shape(width: int, height: int, horizontal: bool) -> (int, int) {
    if horizontal {
        (height, width)
    } else {
        (width, height)
    }
}

pub(crate) proof fn lemma_line_index_bounds(width: int, height: int, line: int, position: int, horizontal: bool)
    requires
        width > 0,
        height > 0,
        0 <= line < pass_shape(width, height, horizontal).0,
        0 <= position < pass_shape(width, height, horizontal).1,
    ensures
        0 <= line_index(width, line, position, horizontal) < width * height,
{
    if horizontal {
        assert(0 <= line * width + position < width * height) by (nonlinear_arith)
            requires
                0 <= line < height,
                0 <= position < width,
        ;
    } else {
        assert(0 <= position * width + line < width * height) by (nonlinear_arith)
            requires
                0 <= position < height,
                0 <= line < width,
        ;
    }
}

pub(crate) proof fn lemma_line_index_injective(
    width: int,
    height: int,
    l1: int,
    p1: int,
    l2: int,
    p2: int,
    horizontal: bool,
)
    requires
        width > 0,
        height > 0,
        0 <= l1 < pass_shape(width, height, horizontal).0,
        0 <= p1 < pass_shape(width, height, horizontal).1,
        0 <= l2 < pass_shape(width, height, horizontal).0,
        0 <= p2 < pass_shape(width, height, horizontal).1,
        line_index(width, l1, p1, horizontal) == line_index(width, l2, p2, horizontal),
    ensures
        l1 == l2,
        p1 == p2,
{
    if horizontal {
        assert(l1 == l2 && p1 == p2) by (nonlinear_arith)
            requires
                0 <= p1 < width,
                0 <= p2 < width,
                l1 * width + p1 == l2 * width + p2,
                0 <= l1,
                0 <= l2,
        ;
    } else {
        assert(l1 == l2 && p1 == p2) by (nonlinear_arith)
            requires
                0 <= l1 < width,
                0 <= l2 < width,
                p1 * width + l1 == p2 * width + l2,
                0 <= p1,
                0 <= p2,
        ;
    }
}

/// Line holding mask entry `i` in a pass along rows (`horizontal`) or columns.
pub open spec fn line_of(width: int, i: int, horizontal: bool) -> int {
    if horizontal {
        i / width
    } else {
        i % width
    }
}

/// Position of mask entry `i` along its line.
pub open spec fn position_of(width: int, i: int, horizontal: bool) -> int {
    if horizontal {
        i % width
    } else {
        i / width
    }
}

pub(crate) proof fn lemma_line_of(width: int, height: int, i: int, horizontal: bool)
    requires
        width > 0,
        height > 0,
        0 <= i < width * height,
    ensures
        0 <= line_of(width, i, horizontal) < pass_shape(width, height, horizontal).0,
        0 <= position_of(width, i, horizontal) < pass_shape(width, height, horizontal).1,
        line_index(width, line_of(width, i, horizontal), position_of(width, i, horizontal), horizontal) == i,
{
    let q = i / width;
    let r = i % width;
    assert(0 <= q < height && 0 <= r < width && q * width + r == i) by (nonlinear_arith)
        requires
            width > 0,
            0 <= i < width * height,
            q == i / width,
            r == i % width,
    ;
}

pub(crate) fn index_of(width: usize, height: usize, line: usize, position: usize, horizontal: bool) -> (r: usize)
    requires
        width > 0,
        height > 0,
        width * height <= usize::MAX,
        line < pass_shape(width as int, height as int, horizontal).0,
        position < pass_shape(width as int, height as int, horizontal).1,
    ensures
        r == line_index(width as int, line as int, position as int, horizontal),
        r < width * height,
{
    proof {
        lemma_line_index_bounds(width as int, height as int, line as int, position as int, horizontal);
    }
    if horizontal {
        assert(line * width <= line * width + position) by (nonlinear_arith);
        line * width + position
    } else {
        assert(position * width <= position * width + line) by (nonlinear_arith);
        position * width + line
    }
}


proof fn lemma_line_sum_split(input: Seq<u8>, width: int, line: int, horizontal: bool, a: int, b: int, c: int)
    requires
        a <= b <= c,
    ensures
        line_sum(input, width, line, horizontal, a, c) == line_sum(input, width, line, horizontal, a, b)
            + line_sum(input, width, line, horizontal, b, c),
    decreases c - b,
{
    if b < c {
        lemma_line_sum_split(input, width, line, horizontal, a, b, c - 1);
    }
}

proof fn lemma_line_sum_bound(input: Seq<u8>, width: int, line: int, horizontal: bool, a: int, b: int)
    ensures
        0 <= line_sum(input, width, line, horizontal, a, b),
        a <= b ==> line_sum(input, width, line, horizontal, a, b) <= 255 * (b - a),
    decreases b - a,
{
    if a < b {
        lemma_line_sum_bound(input, width, line, horizontal, a, b - 1);
    }
}

/// Whether a mask has the shape of a supported canvas.
pub open spec fn mask_shape(mask: Seq<u8>, width: u32, height: u32) -> bool {
    &&& valid_dimensions(width, height)
    &&& mask.len() == width * height
}

/// A whole box-blur pass as a mask.
pub open spec fn blur_mask(input: Seq<u8>, width: int, height: int, radius: int, horizontal: bool) -> Seq<u8> {
    Seq::new(
        input.len(),
        |i: int|
            box_value(
                input,
                width,
                pass_shape(width, height, horizontal).1,
                line_of(width, i, horizontal),
                position_of(width, i, horizontal),
                radius,
                horizontal,
            ) as u8,
    )
}

/// One pass of a box blur along rows (`horizontal`) or columns.
pub fn box_blur_pass(input: &[u8], width: u32, height: u32, radius: u32, horizontal: bool) -> (output: Vec<u8>)
    requires
        mask_shape(input@, width, height),
        radius <= MAX_SELECTION_RADIUS,
    ensures
        output@.len() == input@.len(),
        forall|line: int, position: int|
            0 <= line < pass_shape(width as int, height as int, horizontal).0 && 0 <= position
                < pass_shape(width as int, height as int, horizontal).1 ==> output@[line_index(
                width as int,
                line,
                position,
                horizontal,
            )] == box_value(
                input@,
                width as int,
                pass_shape(width as int, height as int, horizontal).1,
                line,
                position,
                radius as int,
                horizontal,
            ),
        output@ == blur_mask(input@, width as int, height as int, radius as int, horizontal),
{
    let w = width as usize;
    let h = height as usize;
    let total = input.len();
    let mut output: Vec<u8> = vec![0u8; total];
    let lines: usize = if horizontal { h } else { w };
    let line_len: usize = if horizontal { w } else { h };
    let divisor: u64 = radius as u64 * 2 + 1;
    let ghost wi = width as int;
    let ghost hi = height as int;
    let mut line: usize = 0;
    while line < lines
        invariant
            w == width,
            h == height,
            total == input@.len(),
            mask_shape(input@, width, height),
            radius <= MAX_SELECTION_RADIUS,
            divisor == 2 * radius + 1,
            lines == pass_shape(wi, hi, horizontal).0,
            line_len == pass_shape(wi, hi, horizontal).1,
            wi == width,
            hi == height,
            line <= lines,
            output@.len() == total,
            forall|l: int, p: int|
                0 <= l < line && 0 <= p < line_len ==> output@[line_index(wi, l, p, horizontal)]
                    == box_value(input@, wi, line_len as int, l, p, radius as int, horizontal),
        decreases lines - line,
    {
        let mut prefix: Vec<u64> = Vec::new();
        prefix.push(0);
        let mut position: usize = 0;
        while position < line_len
            invariant
                w == width,
                h == height,
                mask_shape(input@, width, height),
                lines == pass_shape(wi, hi, horizontal).0,
                line_len == pass_shape(wi, hi, horizontal).1,
                wi == width,
                hi == height,
                line < lines,
                position <= line_len,
                prefix@.len() == position + 1,
                forall|k: int| 0 <= k <= position ==> prefix@[k] == line_sum(input@, wi, line as int, horizontal, 0, k) as u64 && 0 <= line_sum(input@, wi, line as int, horizontal, 0, k) <= 255 * k,
            decreases line_len - position,
        {
            let index = index_of(w, h, line, position, horizontal);
            proof {
                assert(line_len <= 32768);
                lemma_line_sum_bound(input@, wi, line as int, horizontal, 0, position + 1);
            }
            let next = prefix[position] + input[index] as u64;
            prefix.push(next);
            position = position + 1;
        }
        let ghost before = output@;
        let mut position: usize = 0;
        while position < line_len
            invariant
                w == width,
                h == height,
                total == input@.len(),
                mask_shape(input@, width, height),
                radius <= MAX_SELECTION_RADIUS,
                divisor == 2 * radius + 1,
                lines == pass_shape(wi, hi, horizontal).0,
                line_len == pass_shape(wi, hi, horizontal).1,
                wi == width,
                hi == height,
                line < lines,
                position <= line_len,
                output@.len() == total,
                prefix@.len() == line_len + 1,
                forall|k: int| 0 <= k <= line_len ==> prefix@[k] == line_sum(input@, wi, line as int, horizontal, 0, k) as u64,
                forall|l: int, p: int|
                    0 <= l < line && 0 <= p < line_len ==> output@[line_index(wi, l, p, horizontal)]
                        == box_value(input@, wi, line_len as int, l, p, radius as int, horizontal),
                forall|p: int|
                    0 <= p < position ==> output@[line_index(wi, line as int, p, horizontal)]
                        == box_value(input@, wi, line_len as int, line as int, p, radius as int, horizontal),
            decreases line_len - position,
        {
            let start = if position > radius as usize { position - radius as usize } else { 0 };
            let end = if position + radius as usize + 1 < line_len { position + radius as usize + 1 } else { line_len };
            proof {
                lemma_line_sum_split(input@, wi, line as int, horizontal, 0, start as int, end as int);
                lemma_line_sum_bound(input@, wi, line as int, horizontal, start as int, end as int);
                lemma_line_sum_bound(input@, wi, line as int, horizontal, 0, end as int);
                lemma_line_sum_bound(input@, wi, line as int, horizontal, 0, start as int);
                assert(line_len <= 32768);
            }
            let sum = prefix[end] - prefix[start];
            assert(sum <= 255 * divisor) by (nonlinear_arith)
                requires
                    sum <= 255 * (end - start),
                    end - start <= divisor,
                    start <= end,
            ;
            let value = (sum + divisor / 2) / divisor;
            assert(value <= 255) by (nonlinear_arith)
                requires
                    value == (sum + divisor / 2) as int / (divisor as int),
                    sum <= 255 * divisor,
                    divisor >= 1,
            ;
            let index = index_of(w, h, line, position, horizontal);
            let ghost prior = output@;
            output[index] = value as u8;
            proof {
                assert forall|l: int, p: int|
                    0 <= l < line && 0 <= p < line_len implies output@[line_index(wi, l, p, horizontal)]
                        == box_value(input@, wi, line_len as int, l, p, radius as int, horizontal) by {
                    lemma_line_index_bounds(wi, hi, l, p, horizontal);
                    assert(prior[line_index(wi, l, p, horizontal)] == box_value(input@, wi, line_len as int, l, p, radius as int, horizontal));
                    if line_index(wi, l, p, horizontal) == index {
                        lemma_line_index_injective(wi, hi, l, p, line as int, position as int, horizontal);
                    }
                }
                assert forall|p: int|
                    0 <= p < position + 1 implies output@[line_index(wi, line as int, p, horizontal)]
                        == box_value(input@, wi, line_len as int, line as int, p, radius as int, horizontal) by {
                    if p < position && line_index(wi, line as int, p, horizontal) == index {
                        lemma_line_index_injective(wi, hi, line as int, p, line as int, position as int, horizontal);
                    }
                    if p < position {
                        lemma_line_index_bounds(wi, hi, line as int, p, horizontal);
                    }
                }
            }
            position = position + 1;
        }
        line = line + 1;
    }
    proof {
        let expected = blur_mask(input@, wi, hi, radius as int, horizontal);
        assert forall|i: int| 0 <= i < total implies output@[i] == expected[i] by {
            lemma_line_of(wi, hi, i, horizontal);
        }
        assert(output@ =~= expected);
    }
    output
}


/// One line of the mask with `padding` zeros added on each side.
pub open spec fn padded_line(
    input: Seq<u8>,
    width: int,
    line: int,
    horizontal: bool,
    line_len: int,
    padding: int,
) -> Seq<u8> {
    Seq::new(
        (line_len + 2 * padding) as nat,
        |q: int|
            if padding <= q < padding + line_len {
                input[line_index(width, line, q - padding, horizontal)]
            } else {
                0u8
            },
    )
}

/// `a` is at least as extreme as `b`: not smaller for a maximum, not larger
/// for a minimum.
pub open spec fn at_least_as(a: u8, b: u8, maximum: bool) -> bool {
    if maximum {
        a >= b
    } else {
        a <= b
    }
}

/// `a` is strictly more extreme than `b`.
pub open spec fn more_extreme(a: u8, b: u8, maximum: bool) -> bool {
    if maximum {
        a > b
    } else {
        a < b
    }
}

/// Maximum (or minimum) of `s` over positions `lo..=hi`.
pub open spec fn window_extreme(s: Seq<u8>, lo: int, hi: int, maximum: bool) -> u8
    decreases hi - lo,
{
    if hi <= lo {
        s[lo]
    } else {
        let rest = window_extreme(s, lo, hi - 1, maximum);
        if at_least_as(rest, s[hi], maximum) {
            rest
        } else {
            s[hi]
        }
    }
}

/// The window extreme is one of the window's values and bounds all of them.
proof fn lemma_window_extreme(s: Seq<u8>, lo: int, hi: int, maximum: bool) -> (witness: int)
    requires
        lo <= hi,
    ensures
        lo <= witness <= hi,
        window_extreme(s, lo, hi, maximum) == s[witness],
        forall|q: int| lo <= q <= hi ==> at_least_as(window_extreme(s, lo, hi, maximum), #[trigger] s[q], maximum),
    decreases hi - lo,
{
    if hi <= lo {
        lo
    } else {
        let w = lemma_window_extreme(s, lo, hi - 1, maximum);
        if at_least_as(window_extreme(s, lo, hi - 1, maximum), s[hi], maximum) {
            w
        } else {
            hi
        }
    }
}

/// The deque holds strictly increasing positions below `q` with their values,
/// strictly less extreme from front to back.
#[verifier::opaque]
spec fn deque_ordered(d: Seq<(usize, u8)>, s: Seq<u8>, q: int, maximum: bool) -> bool {
    &&& q <= s.len()
    &&& forall|k: int| 0 <= k < d.len() ==> (#[trigger] d[k]).0 < q && d[k].1 == s[d[k].0 as int]
    &&& forall|k1: int, k2: int|
        0 <= k1 < k2 < d.len() ==> (#[trigger] d[k1]).0 < (#[trigger] d[k2]).0 && more_extreme(
            d[k1].1,
            d[k2].1,
            maximum,
        )
}

/// Position `j` is matched or exceeded by a deque entry at or after it.
spec fn covered(d: Seq<(usize, u8)>, s: Seq<u8>, j: int, maximum: bool) -> bool {
    exists|k: int| 0 <= k < d.len() && (#[trigger] d[k]).0 >= j && at_least_as(d[k].1, s[j], maximum)
}

/// Every position in `lo..q` is covered.
#[verifier::opaque]
spec fn deque_dominates(d: Seq<(usize, u8)>, s: Seq<u8>, lo: int, q: int, maximum: bool) -> bool {
    forall|j: int| lo <= j < q ==> #[trigger] covered(d, s, j, maximum)
}

/// While entries are popped from the back for a new `value`: every position in
/// `lo..q` is covered by the deque or by `value`.
#[verifier::opaque]
spec fn pending(d: Seq<(usize, u8)>, s: Seq<u8>, lo: int, q: int, value: u8, maximum: bool) -> bool {
    forall|j: int| lo <= j < q ==> #[trigger] covered(d, s, j, maximum) || at_least_as(value, s[j], maximum)
}

proof fn lemma_start_pending(d: Seq<(usize, u8)>, s: Seq<u8>, lo: int, q: int, value: u8, maximum: bool)
    requires
        deque_dominates(d, s, lo, q, maximum),
    ensures
        pending(d, s, lo, q, value, maximum),
{
    reveal(deque_dominates);
    reveal(pending);
}

proof fn lemma_pop_back(d: Seq<(usize, u8)>, s: Seq<u8>, lo: int, q: int, value: u8, maximum: bool)
    requires
        d.len() > 0,
        at_least_as(value, d.last().1, maximum),
        deque_ordered(d, s, q, maximum),
        pending(d, s, lo, q, value, maximum),
    ensures
        deque_ordered(d.drop_last(), s, q, maximum),
        pending(d.drop_last(), s, lo, q, value, maximum),
{
    reveal(deque_ordered);
    reveal(pending);
    let e = d.drop_last();
    assert forall|j: int| lo <= j < q implies #[trigger] covered(e, s, j, maximum) || at_least_as(value, s[j], maximum) by {
        if !at_least_as(value, s[j], maximum) {
            assert(covered(d, s, j, maximum));
            let k = choose|k: int| 0 <= k < d.len() && (#[trigger] d[k]).0 >= j && at_least_as(d[k].1, s[j], maximum);
            assert(k != d.len() - 1);
            assert(e[k] == d[k]);
        }
    }
}

proof fn lemma_push(d: Seq<(usize, u8)>, s: Seq<u8>, lo: int, q: usize, value: u8, maximum: bool)
    requires
        q < s.len(),
        value == s[q as int],
        deque_ordered(d, s, q as int, maximum),
        pending(d, s, lo, q as int, value, maximum),
        d.len() > 0 ==> more_extreme(d.last().1, value, maximum),
    ensures
        deque_ordered(d.push((q, value)), s, q + 1, maximum),
        deque_dominates(d.push((q, value)), s, lo, q + 1, maximum),
{
    reveal(deque_ordered);
    reveal(pending);
    reveal(deque_dominates);
    let e = d.push((q, value));
    assert(e[e.len() - 1] == (q, value));
    assert forall|k1: int, k2: int|
        0 <= k1 < k2 < e.len() implies (#[trigger] e[k1]).0 < (#[trigger] e[k2]).0 && more_extreme(
            e[k1].1,
            e[k2].1,
            maximum,
        ) by {
        assert(e[k1] == d[k1]);
        if k2 < d.len() {
            assert(e[k2] == d[k2]);
        } else if k1 < d.len() - 1 {
            assert(d[k1].0 < d[d.len() - 1].0 && more_extreme(d[k1].1, d[d.len() - 1].1, maximum));
        }
    }
    assert forall|j: int| lo <= j < q + 1 implies #[trigger] covered(e, s, j, maximum) by {
        if j == q || at_least_as(value, s[j], maximum) {
            assert(e[e.len() - 1].0 >= j);
        } else {
            assert(covered(d, s, j, maximum));
            let k = choose|k: int| 0 <= k < d.len() && (#[trigger] d[k]).0 >= j && at_least_as(d[k].1, s[j], maximum);
            assert(e[k] == d[k]);
        }
    }
}

proof fn lemma_pop_front(d: Seq<(usize, u8)>, s: Seq<u8>, start: int, q: int, maximum: bool)
    requires
        d.len() > 0,
        d[0].0 < start,
        deque_ordered(d, s, q, maximum),
        deque_dominates(d, s, start, q, maximum),
    ensures
        deque_ordered(d.drop_first(), s, q, maximum),
        deque_dominates(d.drop_first(), s, start, q, maximum),
        d.len() > 1 ==> d.drop_first().last() == d.last(),
{
    reveal(deque_ordered);
    reveal(deque_dominates);
    let e = d.drop_first();
    assert forall|k: int| 0 <= k < e.len() implies #[trigger] e[k] == d[k + 1] by {}
    assert forall|k1: int, k2: int|
        0 <= k1 < k2 < e.len() implies (#[trigger] e[k1]).0 < (#[trigger] e[k2]).0 && more_extreme(
            e[k1].1,
            e[k2].1,
            maximum,
        ) by {
        assert(d[k1 + 1].0 < d[k2 + 1].0);
    }
    assert forall|j: int| start <= j < q implies #[trigger] covered(e, s, j, maximum) by {
        assert(covered(d, s, j, maximum));
        let k = choose|k: int| 0 <= k < d.len() && (#[trigger] d[k]).0 >= j && at_least_as(d[k].1, s[j], maximum);
        assert(k != 0);
        assert(e[k - 1] == d[k]);
    }
}

proof fn lemma_front_is_extreme(d: Seq<(usize, u8)>, s: Seq<u8>, start: int, q: int, maximum: bool)
    requires
        d.len() > 0,
        start <= d[0].0,
        start <= q,
        deque_ordered(d, s, q + 1, maximum),
        deque_dominates(d, s, start, q + 1, maximum),
    ensures
        d[0].1 == window_extreme(s, start, q, maximum),
{
    reveal(deque_ordered);
    reveal(deque_dominates);
    let wit = lemma_window_extreme(s, start, q, maximum);
    assert(covered(d, s, wit, maximum));
    let k = choose|k: int| 0 <= k < d.len() && (#[trigger] d[k]).0 >= wit && at_least_as(d[k].1, s[wit], maximum);
    if k > 0 {
        assert(more_extreme(d[0].1, d[k].1, maximum));
    }
    let front = d[0].0 as int;
    assert(at_least_as(window_extreme(s, start, q, maximum), s[front], maximum));
}

/// A whole sliding-extreme pass as a mask.
pub open spec fn extreme_mask(
    input: Seq<u8>,
    width: int,
    height: int,
    radius: int,
    horizontal: bool,
    maximum: bool,
) -> Seq<u8> {
    Seq::new(
        input.len(),
        |i: int|
            window_extreme(
                padded_line(input, width, line_of(width, i, horizontal), horizontal, pass_shape(width, height, horizontal).1, radius),
                position_of(width, i, horizontal),
                position_of(width, i, horizontal) + 2 * radius,
                maximum,
            ),
    )
}

/// Whether a deque entry holding `back` is no longer needed once `value`
/// arrives: `value` is at least as extreme.
fn yields_to(back: u8, value: u8, maximum: bool) -> (r: bool)
    ensures
        r == at_least_as(value, back, maximum),
{
    if maximum {
        back <= value
    } else {
        back >= value
    }
}

/// One pass of a sliding-window maximum (`maximum`) or minimum along rows
/// (`horizontal`) or columns: each entry becomes the extreme of the window of
/// `radius` on each side, where positions beyond the line count as 0.
pub fn extreme_pass(
    input: &[u8],
    width: u32,
    height: u32,
    radius: u32,
    horizontal: bool,
    maximum: bool,
) -> (output: Vec<u8>)
    requires
        mask_shape(input@, width, height),
        radius <= MAX_SELECTION_RADIUS,
    ensures
        output@.len() == input@.len(),
        forall|line: int, position: int|
            0 <= line < pass_shape(width as int, height as int, horizontal).0 && 0 <= position
                < pass_shape(width as int, height as int, horizontal).1 ==> output@[line_index(
                width as int,
                line,
                position,
                horizontal,
            )] == window_extreme(
                padded_line(
                    input@,
                    width as int,
                    line,
                    horizontal,
                    pass_shape(width as int, height as int, horizontal).1,
                    radius as int,
                ),
                position,
                position + 2 * radius,
                maximum,
            ),
        output@ == extreme_mask(input@, width as int, height as int, radius as int, horizontal, maximum),
{
    let w = width as usize;
    let h = height as usize;
    let total = input.len();
    let mut output: Vec<u8> = vec![0u8; total];
    let lines: usize = if horizontal { h } else { w };
    let line_len: usize = if horizontal { w } else { h };
    let padding = radius as usize;
    let window = padding * 2 + 1;
    let ghost wi = width as int;
    let ghost hi = height as int;
    let mut line: usize = 0;
    while line < lines
        invariant
            w == width,
            h == height,
            total == input@.len(),
            mask_shape(input@, width, height),
            radius <= MAX_SELECTION_RADIUS,
            padding == radius,
            window == 2 * padding + 1,
            lines == pass_shape(wi, hi, horizontal).0,
            line_len == pass_shape(wi, hi, horizontal).1,
            wi == width,
            hi == height,
            line <= lines,
            output@.len() == total,
            forall|l: int, p: int|
                0 <= l < line && 0 <= p < line_len ==> output@[line_index(wi, l, p, horizontal)]
                    == window_extreme(
                    padded_line(input@, wi, l, horizontal, line_len as int, padding as int),
                    p,
                    p + 2 * padding,
                    maximum,
                ),
        decreases lines - line,
    {
        let padded_len = line_len + padding * 2;
        let ghost s = padded_line(input@, wi, line as int, horizontal, line_len as int, padding as int);
        let mut deque: VecDeque<(usize, u8)> = VecDeque::new();
        proof {
            reveal(deque_ordered);
            reveal(deque_dominates);
        }
        let mut q: usize = 0;
        while q < padded_len
            invariant
                w == width,
                h == height,
                total == input@.len(),
                mask_shape(input@, width, height),
                radius <= MAX_SELECTION_RADIUS,
                padding == radius,
                window == 2 * padding + 1,
                lines == pass_shape(wi, hi, horizontal).0,
                line_len == pass_shape(wi, hi, horizontal).1,
                wi == width,
                hi == height,
                line < lines,
                padded_len == line_len + 2 * padding,
                s == padded_line(input@, wi, line as int, horizontal, line_len as int, padding as int),
                q <= padded_len,
                output@.len() == total,
                deque_ordered(deque@, s, q as int, maximum),
                deque_dominates(deque@, s, if q >= window { q - window } else { 0 }, q as int, maximum),
                forall|l: int, p: int|
                    0 <= l < line && 0 <= p < line_len ==> output@[line_index(wi, l, p, horizontal)]
                        == window_extreme(
                        padded_line(input@, wi, l, horizontal, line_len as int, padding as int),
                        p,
                        p + 2 * padding,
                        maximum,
                    ),
                forall|p: int|
                    0 <= p < line_len && p + window <= q ==> output@[line_index(wi, line as int, p, horizontal)]
                        == window_extreme(s, p, p + 2 * padding, maximum),
            decreases padded_len - q,
        {
            let ghost lo = if q >= window { q - window } else { 0 };
            let value = if q < padding || q >= padding + line_len {
                0u8
            } else {
                let index = index_of(w, h, line, q - padding, horizontal);
                input[index]
            };
            assert(value == s[q as int]);
            proof {
                lemma_start_pending(deque@, s, lo as int, q as int, value, maximum);
            }
            while deque.len() > 0 && yields_to(deque[deque.len() - 1].1, value, maximum)
                invariant
                    deque_ordered(deque@, s, q as int, maximum),
                    pending(deque@, s, lo as int, q as int, value, maximum),
                decreases deque@.len(),
            {
                let ghost before = deque@;
                deque.pop_back();
                proof {
                    lemma_pop_back(before, s, lo as int, q as int, value, maximum);
                    assert(deque@ =~= before.drop_last());
                }
            }
            let ghost before_push = deque@;
            deque.push_back((q, value));
            proof {
                lemma_push(before_push, s, lo as int, q, value, maximum);
                assert(deque@ =~= before_push.push((q, value)));
            }
            if q + 1 >= window {
                let start = q + 1 - window;
                proof {
                    reveal(deque_dominates);
                }
                while deque.len() > 0 && deque[0].0 < start
                    invariant
                        deque@.len() > 0,
                        deque@.last() == (q, value),
                        start <= q,
                        deque_ordered(deque@, s, q + 1, maximum),
                        deque_dominates(deque@, s, start as int, q + 1, maximum),
                    decreases deque@.len(),
                {
                    let ghost before = deque@;
                    deque.pop_front();
                    proof {
                        lemma_pop_front(before, s, start as int, q + 1, maximum);
                        assert(deque@ =~= before.drop_first());
                    }
                }
                if start < line_len {
                    let front = deque[0].1;
                    proof {
                        lemma_front_is_extreme(deque@, s, start as int, q as int, maximum);
                    }
                    let index = index_of(w, h, line, start, horizontal);
                    let ghost prior = output@;
                    output[index] = front;
                    proof {
                        assert forall|l: int, p: int|
                            0 <= l < line && 0 <= p < line_len implies output@[line_index(wi, l, p, horizontal)]
                                == window_extreme(
                                padded_line(input@, wi, l, horizontal, line_len as int, padding as int),
                                p,
                                p + 2 * padding,
                                maximum,
                            ) by {
                            lemma_line_index_bounds(wi, hi, l, p, horizontal);
                            if line_index(wi, l, p, horizontal) == index {
                                lemma_line_index_injective(wi, hi, l, p, line as int, start as int, horizontal);
                            }
                        }
                        assert forall|p: int|
                            0 <= p < line_len && p + window <= q + 1 implies output@[line_index(wi, line as int, p, horizontal)]
                                == window_extreme(s, p, p + 2 * padding, maximum) by {
                            if p != start {
                                lemma_line_index_bounds(wi, hi, line as int, p, horizontal);
                                if line_index(wi, line as int, p, horizontal) == index {
                                    lemma_line_index_injective(wi, hi, line as int, p, line as int, start as int, horizontal);
                                }
                            }
                        }
                    }
                }
            }
            q = q + 1;
        }
        line = line + 1;
    }
    proof {
        let expected = extreme_mask(input@, wi, hi, radius as int, horizontal, maximum);
        assert forall|i: int| 0 <= i < total implies output@[i] == expected[i] by {
            lemma_line_of(wi, hi, i, horizontal);
        }
        assert(output@ =~= expected);
    }
    output
}

/// Coverage of one pixel: everything is selected while the selection is
/// inactive; outside the canvas nothing is.
pub open spec fn coverage_spec(v: SelectionView, x: u32, y: u32) -> u8 {
    if !v.active {
        255u8
    } else if x >= v.width || y >= v.height {
        0u8
    } else {
        v.mask[y * v.width + x]
    }
}

/// The selection after `clear`: inactive, with an empty mask.
pub open spec fn cleared(v: SelectionView) -> SelectionView {
    SelectionView { width: v.width, height: v.height, active: false, mask: filled(v.mask.len(), 0) }
}

/// The selection after `select_all`: active, with a full mask.
pub open spec fn all_selected(v: SelectionView) -> SelectionView {
    SelectionView { width: v.width, height: v.height, active: true, mask: filled(v.mask.len(), 255) }
}

/// A mask of `len` entries all equal to `value`.
pub open spec fn filled(len: nat, value: u8) -> Seq<u8> {
    Seq::new(len, |i: int| value)
}

/// One mask entry after combining the current value with an incoming one.
pub open spec fn combine_value(current: u8, incoming: u8, mode: SelectionMode) -> u8 {
    match mode {
        SelectionMode::Replace => incoming,
        SelectionMode::Add => if current + incoming > 255 {
            255u8
        } else {
            (current + incoming) as u8
        },
        SelectionMode::Subtract => if current < incoming {
            0u8
        } else {
            (current - incoming) as u8
        },
        SelectionMode::Intersect => if current < incoming {
            current
        } else {
            incoming
        },
    }
}

/// The mask after a shape is combined into the selection: an inactive
/// selection, or `Replace`, takes the shape as it is.
pub open spec fn combined(v: SelectionView, shape: Seq<u8>, mode: SelectionMode) -> Seq<u8> {
    if !v.active || mode == SelectionMode::Replace {
        shape
    } else {
        Seq::new(v.mask.len(), |i: int| combine_value(v.mask[i], shape[i], mode))
    }
}

/// The rectangle's part inside a `width` x `height` canvas as a mask: 255
/// inside, 0 elsewhere.
pub open spec fn rect_shape(width: u32, height: u32, rect: Rect) -> Seq<u8> {
    Seq::new(
        (width * height) as nat,
        |i: int|
            match rect.clipped_spec(width, height) {
                Some((x0, y0, x1, y1)) => if x0 <= i % (width as int) < x1 && y0 <= i / (width as int) < y1 {
                    255u8
                } else {
                    0u8
                },
                None => 0u8,
            },
    )
}

/// The selection after `invert`: an active mask is complemented; an inactive
/// selection (everything) becomes an active empty one.
pub open spec fn inverted(v: SelectionView) -> SelectionView {
    SelectionView {
        width: v.width,
        height: v.height,
        active: true,
        mask: if v.active {
            Seq::new(v.mask.len(), |i: int| (255 - v.mask[i]) as u8)
        } else {
            filled(v.mask.len(), 0)
        },
    }
}

/// The selection after a shape is combined in.
pub open spec fn with_shape(v: SelectionView, shape: Seq<u8>, mode: SelectionMode) -> SelectionView {
    SelectionView { width: v.width, height: v.height, active: true, mask: combined(v, shape, mode) }
}

/// A mask after `grow`: a maximum over the square of `radius` around each
/// entry, rows first.
pub open spec fn grown(mask: Seq<u8>, width: int, height: int, radius: int) -> Seq<u8> {
    extreme_mask(extreme_mask(mask, width, height, radius, true, true), width, height, radius, false, true)
}

/// A mask after `shrink`: the minimum over the same square.
pub open spec fn shrunk(mask: Seq<u8>, width: int, height: int, radius: int) -> Seq<u8> {
    extreme_mask(extreme_mask(mask, width, height, radius, true, false), width, height, radius, false, false)
}

/// A mask after `feather`: a box blur along rows, then along columns.
pub open spec fn feathered(mask: Seq<u8>, width: int, height: int, radius: int) -> Seq<u8> {
    blur_mask(blur_mask(mask, width, height, radius, true), width, height, radius, false)
}

/// A selection mask after `crop`: an inactive selection gets an empty mask.
pub open spec fn cropped_mask(v: SelectionView, rect: Rect) -> Seq<u8> {
    Seq::new(
        (rect.width * rect.height) as nat,
        |i: int|
            if v.active {
                crop_spec(v.mask, v.width as int, v.height as int, rect, 1, i)
            } else {
                0u8
            },
    )
}

/// Rejects a radius beyond the supported maximum.
pub fn validate_radius(radius: u32) -> (r: Result<(), CoreError>)
    ensures
        radius <= MAX_SELECTION_RADIUS ==> r is Ok,
        radius > MAX_SELECTION_RADIUS ==> (r matches Err(CoreError::InvalidSelectionRadius(v)) && v == radius),
{
    if radius > MAX_SELECTION_RADIUS {
        Err(CoreError::InvalidSelectionRadius(radius))
    } else {
        Ok(())
    }
}

fn fill_vec(len: usize, value: u8) -> (r: Vec<u8>)
    ensures
        r@ == filled(len as nat, value),
{
    let v = vec![value; len];
    proof {
        assert(v@ =~= filled(len as nat, value));
    }
    v
}

impl Selection {
    /// Whether the mask has one entry per pixel of a supported canvas.
    pub open spec fn well_formed(&self) -> bool {
        mask_shape(self@.mask, self@.width, self@.height)
    }

    /// An inactive selection over a canvas of the given size.
    pub fn new(width: u32, height: u32) -> (r: Result<Self, CoreError>)
        ensures
            valid_dimensions(width, height) <==> r is Ok,
            r matches Ok(s) ==> s.well_formed() && s@ == (SelectionView {
                width,
                height,
                active: false,
                mask: filled((width * height) as nat, 0),
            }),
            r matches Err(e) ==> (e matches CoreError::InvalidDimensions { width: w, height: h } && w == width
                && h == height),
    {
        let len = match pixel_count(width, height) {
            Ok(len) => len,
            Err(e) => return Err(e),
        };
        let mask = RasterBytes::zeroed(len);
        proof {
            assert(mask@ =~= filled((width * height) as nat, 0));
        }
        Ok(Selection { width, height, active: false, mask })
    }

    pub fn width(&self) -> (r: u32)
        ensures
            r == self@.width,
    {
        self.width
    }

    pub fn height(&self) -> (r: u32)
        ensures
            r == self@.height,
    {
        self.height
    }

    pub fn is_active(&self) -> (r: bool)
        ensures
            r == self@.active,
    {
        self.active
    }

    pub fn mask(&self) -> (r: &[u8])
        ensures
            r@ == self@.mask,
    {
        self.mask.as_slice()
    }

    pub fn mask_storage(&self) -> (r: &RasterBytes)
        ensures
            r@ == self@.mask,
    {
        &self.mask
    }

    /// An owned copy of the mask, unaffected by later edits.
    pub fn snapshot_bytes(&self) -> (r: Vec<u8>)
        ensures
            r@ == self@.mask,
    {
        self.mask.to_vec()
    }

    pub fn coverage(&self, x: u32, y: u32) -> (r: u8)
        requires
            self@.mask.len() == self@.width * self@.height,
        ensures
            r == coverage_spec(self@, x, y),
    {
        if !self.active {
            return 255;
        }
        if x >= self.width || y >= self.height {
            return 0;
        }
        let len = self.mask.len();
        let w = self.width as usize;
        assert(y * w + x < self.width * self.height) by (nonlinear_arith)
            requires
                x < self.width,
                y < self.height,
                w == self.width,
        ;
        assert(y * w <= y * w + x) by (nonlinear_arith);
        let index = (y as usize) * w + (x as usize);
        self.mask.as_slice()[index]
    }

    /// An independent copy of the selection.
    pub fn duplicate(&self) -> (r: Self)
        ensures
            r@ == self@,
            r.well_formed() == self.well_formed(),
    {
        Selection { width: self.width, height: self.height, active: self.active, mask: self.mask.clone() }
    }

    /// Deselects: the selection becomes inactive with an empty mask.
    pub fn clear(&mut self)
        ensures
            final(self)@ == cleared(old(self)@),
    {
        let len = self.mask.len();
        self.active = false;
        self.mask = RasterBytes::new(fill_vec(len, 0));
    }

    /// Selects every pixel explicitly.
    pub fn select_all(&mut self)
        ensures
            final(self)@ == all_selected(old(self)@),
    {
        let len = self.mask.len();
        self.active = true;
        self.mask = RasterBytes::new(fill_vec(len, 255));
    }

    pub fn invert(&mut self)
        ensures
            final(self)@ == inverted(old(self)@),
    {
        let len = self.mask.len();
        if self.active {
            let current = self.mask.as_slice();
            let mut out: Vec<u8> = Vec::with_capacity(len);
            let mut i: usize = 0;
            while i < len
                invariant
                    len == current@.len(),
                    i <= len,
                    out@ =~= Seq::new(i as nat, |k: int| (255 - current@[k]) as u8),
                decreases len - i,
            {
                out.push(255 - current[i]);
                i = i + 1;
            }
            self.mask = RasterBytes::new(out);
        } else {
            self.mask = RasterBytes::new(fill_vec(len, 0));
            self.active = true;
        }
    }

    /// Combines the rectangle's part inside the canvas with the selection.
    pub fn apply_rect(&mut self, rect: Rect, mode: SelectionMode)
        requires
            old(self).well_formed(),
        ensures
            final(self).well_formed(),
            final(self)@ == with_shape(old(self)@, rect_shape(old(self)@.width, old(self)@.height, rect), mode),
    {
        let width = self.width;
        let height = self.height;
        let len = self.mask.len();
        let w = width as usize;
        let bounds = rect.clipped_bounds(width, height);
        let ghost expected = rect_shape(width, height, rect);
        let mut shape: Vec<u8> = Vec::with_capacity(len);
        let mut i: usize = 0;
        while i < len
            invariant
                len == width * height,
                w == width,
                w > 0,
                i <= len,
                expected == rect_shape(width, height, rect),
                bounds == (match rect.clipped_spec(width, height) {
                    Some((x0, y0, x1, y1)) => Some((x0 as u32, y0 as u32, x1 as u32, y1 as u32)),
                    None => None,
                }),
                rect.clipped_spec(width, height) matches Some((x0, y0, x1, y1)) ==> 0 <= x0 <= width && 0
                    <= y0 <= height && 0 <= x1 <= width && 0 <= y1 <= height,
                shape@.len() == i,
                forall|k: int| 0 <= k < i ==> shape@[k] == expected[k],
            decreases len - i,
        {
            assert(i / w < height && i % w < w) by (nonlinear_arith)
                requires
                    i < len,
                    len == w * height,
                    w > 0,
            ;
            let x = (i % w) as u32;
            let y = (i / w) as u32;
            assert(x == i as int % width as int && y == i as int / width as int);
            let inside = match bounds {
                Some((x0, y0, x1, y1)) => x0 <= x && x < x1 && y0 <= y && y < y1,
                None => false,
            };
            shape.push(if inside { 255 } else { 0 });
            i = i + 1;
        }
        proof {
            assert(shape@ =~= expected);
        }
        self.combine(shape, mode);
    }

    /// Merges a shape into the mask entry by entry and activates the
    /// selection.
    fn combine(&mut self, shape: Vec<u8>, mode: SelectionMode)
        requires
            shape@.len() == old(self)@.mask.len(),
        ensures
            final(self)@ == with_shape(old(self)@, shape@, mode),
    {
        if !self.active || mode == SelectionMode::Replace {
            self.mask = RasterBytes::new(shape);
        } else {
            let current = self.mask.as_slice();
            let len = current.len();
            let mut out: Vec<u8> = Vec::with_capacity(len);
            let mut i: usize = 0;
            while i < len
                invariant
                    len == current@.len(),
                    shape@.len() == len,
                    i <= len,
                    out@ =~= Seq::new(i as nat, |k: int| combine_value(current@[k], shape@[k], mode)),
                decreases len - i,
            {
                let c = current[i];
                let incoming = shape[i];
                let value = match mode {
                    SelectionMode::Replace => incoming,
                    SelectionMode::Add => c.saturating_add(incoming),
                    SelectionMode::Subtract => c.saturating_sub(incoming),
                    SelectionMode::Intersect => if c < incoming {
                        c
                    } else {
                        incoming
                    },
                };
                out.push(value);
                i = i + 1;
            }
            self.mask = RasterBytes::new(out);
        }
        self.active = true;
    }

    /// Softens the mask with a box blur of `radius` along rows, then columns.
    pub fn feather(&mut self, radius: u32) -> (r: Result<(), CoreError>)
        requires
            old(self).well_formed(),
        ensures
            final(self).well_formed(),
            radius <= MAX_SELECTION_RADIUS <==> r is Ok,
            r matches Err(e) ==> (e matches CoreError::InvalidSelectionRadius(v) && v == radius),
            r is Err || radius == 0 || !old(self)@.active ==> final(self)@ == old(self)@,
            r is Ok && radius > 0 && old(self)@.active ==> final(self)@ == (SelectionView {
                mask: feathered(old(self)@.mask, old(self)@.width as int, old(self)@.height as int, radius as int),
                ..old(self)@
            }),
    {
        match validate_radius(radius) {
            Ok(()) => {},
            Err(e) => return Err(e),
        }
        if radius == 0 || !self.active {
            return Ok(());
        }
        let horizontal = box_blur_pass(self.mask.as_slice(), self.width, self.height, radius, true);
        let vertical = box_blur_pass(horizontal.as_slice(), self.width, self.height, radius, false);
        self.mask = RasterBytes::new(vertical);
        Ok(())
    }

    /// Expands the selection: each entry becomes the maximum over the square
    /// of `radius` around it.
    pub fn grow(&mut self, radius: u32) -> (r: Result<(), CoreError>)
        requires
            old(self).well_formed(),
        ensures
            final(self).well_formed(),
            radius <= MAX_SELECTION_RADIUS <==> r is Ok,
            r matches Err(e) ==> (e matches CoreError::InvalidSelectionRadius(v) && v == radius),
            r is Err || radius == 0 || !old(self)@.active ==> final(self)@ == old(self)@,
            r is Ok && radius > 0 && old(self)@.active ==> final(self)@ == (SelectionView {
                mask: grown(old(self)@.mask, old(self)@.width as int, old(self)@.height as int, radius as int),
                ..old(self)@
            }),
    {
        match validate_radius(radius) {
            Ok(()) => {},
            Err(e) => return Err(e),
        }
        if radius == 0 || !self.active {
            return Ok(());
        }
        let horizontal = extreme_pass(self.mask.as_slice(), self.width, self.height, radius, true, true);
        let vertical = extreme_pass(horizontal.as_slice(), self.width, self.height, radius, false, true);
        self.mask = RasterBytes::new(vertical);
        Ok(())
    }

    /// Contracts the selection: each entry becomes the minimum over the
    /// square of `radius` around it, counting pixels beyond the canvas as 0.
    pub fn shrink(&mut self, radius: u32) -> (r: Result<(), CoreError>)
        requires
            old(self).well_formed(),
        ensures
            final(self).well_formed(),
            radius <= MAX_SELECTION_RADIUS <==> r is Ok,
            r matches Err(e) ==> (e matches CoreError::InvalidSelectionRadius(v) && v == radius),
            r is Err || radius == 0 || !old(self)@.active ==> final(self)@ == old(self)@,
            r is Ok && radius > 0 && old(self)@.active ==> final(self)@ == (SelectionView {
                mask: shrunk(old(self)@.mask, old(self)@.width as int, old(self)@.height as int, radius as int),
                ..old(self)@
            }),
    {
        match validate_radius(radius) {
            Ok(()) => {},
            Err(e) => return Err(e),
        }
        if radius == 0 || !self.active {
            return Ok(());
        }
        let horizontal = extreme_pass(self.mask.as_slice(), self.width, self.height, radius, true, false);
        let vertical = extreme_pass(horizontal.as_slice(), self.width, self.height, radius, false, false);
        self.mask = RasterBytes::new(vertical);
        Ok(())
    }

    /// Moves the selection onto the canvas `rect` of the old one; parts
    /// outside the old canvas become unselected.
    pub fn crop(&mut self, rect: Rect) -> (r: Result<(), CoreError>)
        requires
            old(self).well_formed(),
        ensures
            valid_dimensions(rect.width, rect.height) <==> r is Ok,
            r matches Err(e) ==> (e matches CoreError::InvalidDimensions { width: w, height: h } && w
                == rect.width && h == rect.height),
            r is Err ==> final(self)@ == old(self)@,
            r is Ok ==> final(self).well_formed() && final(self)@ == (SelectionView {
                width: rect.width,
                height: rect.height,
                active: old(self)@.active,
                mask: cropped_mask(old(self)@, rect),
            }),
    {
        let new_len = match pixel_count(rect.width, rect.height) {
            Ok(len) => len,
            Err(e) => return Err(e),
        };
        let ghost old_view = self@;
        let output = if self.active {
            proof {
                assert(self.width * self.height * 1 == self.width * self.height);
                assert(new_len * 1 == new_len);
            }
            crop_bytes(self.mask.as_slice(), self.width, self.height, rect, 1, new_len)
        } else {
            fill_vec(new_len, 0)
        };
        proof {
            assert(output@ =~= cropped_mask(old_view, rect));
        }
        self.width = rect.width;
        self.height = rect.height;
        self.mask = RasterBytes::new(output);
        Ok(())
    }

    /// A selection from decoded project parts, checked against its canvas.
    pub fn from_import_parts(width: u32, height: u32, active: bool, mask: Vec<u8>) -> (r: Result<Self, CoreError>)
        ensures
            r is Ok <==> valid_dimensions(width, height) && mask@.len() == width * height,
            r matches Ok(s) ==> s.well_formed() && s@ == (SelectionView { width, height, active, mask: mask@ }),
            !valid_dimensions(width, height) ==> (r matches Err(CoreError::InvalidDimensions { width: w, height: h })
                && w == width && h == height),
            valid_dimensions(width, height) && mask@.len() != width * height ==> (r matches Err(
                CoreError::InvalidBufferLength { expected, actual },
            ) && expected == width * height && actual == mask@.len()),
    {
        let selection = Self::from_v1_parts(width, height, active, mask);
        match selection.validate(width, height) {
            Ok(()) => Ok(selection),
            Err(e) => Err(e),
        }
    }

    /// A selection from the parts of a version-one project, as they are.
    pub fn from_v1_parts(width: u32, height: u32, active: bool, mask: Vec<u8>) -> (s: Self)
        ensures
            s@ == (SelectionView { width, height, active, mask: mask@ }),
    {
        Selection { width, height, active, mask: RasterBytes::new(mask) }
    }

    /// Checks that the selection fits a canvas of the given size.
    pub fn validate(&self, width: u32, height: u32) -> (r: Result<(), CoreError>)
        ensures
            r is Ok <==> self@.width == width && self@.height == height && valid_dimensions(width, height)
                && self@.mask.len() == width * height,
            self@.width != width || self@.height != height ==> r matches Err(CoreError::MalformedProject(_)),
            self@.width == width && self@.height == height && !valid_dimensions(width, height) ==> (r matches Err(
                CoreError::InvalidDimensions { width: w, height: h },
            ) && w == width && h == height),
            self@.width == width && self@.height == height && valid_dimensions(width, height) && self@.mask.len()
                != width * height ==> (r matches Err(CoreError::InvalidBufferLength { expected, actual })
                && expected == width * height && actual == self@.mask.len()),
    {
        if self.width != width || self.height != height {
            return Err(CoreError::MalformedProject(String::from_str("selection dimensions do not match the canvas")));
        }
        let expected = match pixel_count(width, height) {
            Ok(n) => n,
            Err(e) => return Err(e),
        };
        let actual = self.mask.len();
        if actual != expected {
            return Err(CoreError::InvalidBufferLength { expected, actual });
        }
        Ok(())
    }
}

proof fn lemma_extreme_keeps_center(
    input: Seq<u8>,
    width: int,
    height: int,
    radius: int,
    horizontal: bool,
    maximum: bool,
    i: int,
)
    requires
        width > 0,
        height > 0,
        radius >= 0,
        input.len() == width * height,
        0 <= i < width * height,
    ensures
        at_least_as(extreme_mask(input, width, height, radius, horizontal, maximum)[i], input[i], maximum),
{
    lemma_line_of(width, height, i, horizontal);
    let line = line_of(width, i, horizontal);
    let position = position_of(width, i, horizontal);
    let s = padded_line(input, width, line, horizontal, pass_shape(width, height, horizontal).1, radius);
    lemma_window_extreme(s, position, position + 2 * radius, maximum);
    assert(s[position + radius] == input[i]);
}

/// Inverting complements the coverage of every canvas pixel, whether or not
/// the selection was active.
pub proof fn law_invert_complements_coverage(v: SelectionView, x: u32, y: u32)
    requires
        v.mask.len() == v.width * v.height,
        x < v.width,
        y < v.height,
    ensures
        coverage_spec(inverted(v), x, y) == 255 - coverage_spec(v, x, y),
{
    assert(y * v.width + x < v.width * v.height) by (nonlinear_arith)
        requires
            x < v.width,
            y < v.height,
    ;
}

/// Inverting an active selection twice gives it back.
pub proof fn law_invert_twice_restores(v: SelectionView)
    requires
        v.active,
    ensures
        inverted(inverted(v)) == v,
{
    assert(inverted(inverted(v)).mask =~= v.mask);
}

/// Clearing the selection leaves every pixel fully selected again.
pub proof fn law_clear_selects_everything(v: SelectionView, x: u32, y: u32)
    ensures
        coverage_spec(cleared(v), x, y) == 255,
{
}

/// Subtracting a rectangle from an explicit select-all gives the inverse of
/// selecting just that rectangle.
pub proof fn law_subtract_from_all_is_inverted_rect(v: SelectionView, rect: Rect)
    requires
        v.mask.len() == v.width * v.height,
    ensures
        with_shape(all_selected(v), rect_shape(v.width, v.height, rect), SelectionMode::Subtract) == inverted(
            with_shape(v, rect_shape(v.width, v.height, rect), SelectionMode::Replace),
        ),
{
    let shape = rect_shape(v.width, v.height, rect);
    assert(with_shape(all_selected(v), shape, SelectionMode::Subtract).mask =~= inverted(
        with_shape(v, shape, SelectionMode::Replace),
    ).mask);
}

/// Growing never lowers the coverage of a pixel.
pub proof fn law_grow_never_deselects(mask: Seq<u8>, width: u32, height: u32, radius: u32, i: int)
    requires
        mask_shape(mask, width, height),
        0 <= i < mask.len(),
    ensures
        grown(mask, width as int, height as int, radius as int)[i] >= mask[i],
{
    let first = extreme_mask(mask, width as int, height as int, radius as int, true, true);
    lemma_extreme_keeps_center(mask, width as int, height as int, radius as int, true, true, i);
    lemma_extreme_keeps_center(first, width as int, height as int, radius as int, false, true, i);
}

/// Shrinking never raises the coverage of a pixel.
pub proof fn law_shrink_never_selects(mask: Seq<u8>, width: u32, height: u32, radius: u32, i: int)
    requires
        mask_shape(mask, width, height),
        0 <= i < mask.len(),
    ensures
        shrunk(mask, width as int, height as int, radius as int)[i] <= mask[i],
{
    let first = extreme_mask(mask, width as int, height as int, radius as int, true, false);
    lemma_extreme_keeps_center(mask, width as int, height as int, radius as int, true, false, i);
    lemma_extreme_keeps_center(first, width as int, height as int, radius as int, false, false, i);
}

} // verus!
