//! Ordered animation frames with a current frame and a playback range.
//!
//! Frame durations follow the timeline's frame rate; the rate itself is a
//! float and is turned into the authoritative per-frame duration before it
//! reaches this module.

use std::collections::HashSet;

use vstd::prelude::*;
use vstd::string::StringExecFns;

use crate::canvas::document::{
    Frame, FrameId, PlaybackMetadata, RasterCel, MAX_FRAMES, MAX_FRAME_DURATION_MS,
    MAX_NODES, MAX_STORED_RASTER_BYTES,
};
use crate::canvas::error::CoreError;
use crate::canvas::raster::RasterBytes;
use crate::text::{
    chars_of, decimal, lemma_encode_utf8_concat, push_chars, push_decimal,
    text_of_encoding,
};

verus! {

/// Index of the first frame with the given id.
pub open spec fn position_in(frames: Seq<Frame>, id: FrameId) -> Option<int>
    decreases frames.len(),
{
    if frames.len() == 0 {
        None
    } else {
        match position_in(frames.drop_last(), id) {
            Some(p) => Some(p),
            None => if frames.last().id == id {
                Some(frames.len() - 1)
            } else {
                None
            },
        }
    }
}

/// Whether some frame has the given id.
pub open spec fn has_frame(frames: Seq<Frame>, id: FrameId) -> bool {
    exists|i: int| 0 <= i < frames.len() && #[trigger] frames[i].id == id
}

/// Position of a frame, with -1 for a missing one, so that a missing frame
/// orders before every present one.
pub open spec fn rank(frames: Seq<Frame>, id: FrameId) -> int {
    match position_in(frames, id) {
        Some(p) => p,
        None => -1,
    }
}

/// No two frames share an id.
pub open spec fn unique_ids(frames: Seq<Frame>) -> bool {
    forall|i: int, j: int| 0 <= i < j < frames.len() ==> (#[trigger] frames[i]).id != (#[trigger] frames[j]).id
}

proof fn lemma_position(frames: Seq<Frame>, id: FrameId)
    ensures
        match position_in(frames, id) {
            Some(p) => 0 <= p < frames.len() && frames[p].id == id && forall|j: int|
                0 <= j < p ==> (#[trigger] frames[j]).id != id,
            None => forall|j: int| 0 <= j < frames.len() ==> (#[trigger] frames[j]).id != id,
        },
    decreases frames.len(),
{
    if frames.len() > 0 {
        let init = frames.drop_last();
        lemma_position(init, id);
        match position_in(init, id) {
            Some(p) => {
                assert(init[p] == frames[p]);
                assert forall|j: int| 0 <= j < p implies (#[trigger] frames[j]).id != id by {
                    assert(init[j] == frames[j]);
                }
            },
            None => {
                assert forall|j: int| 0 <= j < init.len() implies (#[trigger] frames[j]).id != id by {
                    assert(init[j] == frames[j]);
                }
            },
        }
    }
}

proof fn lemma_position_at(frames: Seq<Frame>, id: FrameId, p: int)
    requires
        0 <= p < frames.len(),
        frames[p].id == id,
        forall|j: int| 0 <= j < p ==> (#[trigger] frames[j]).id != id,
    ensures
        position_in(frames, id) == Some(p),
        rank(frames, id) == p,
{
    lemma_position(frames, id);
    match position_in(frames, id) {
        Some(q) => {
            if q < p {
                assert(frames[q].id == id);
            } else if q > p {
                assert(frames[p].id == id);
            }
        },
        None => {
            assert(frames[p].id == id);
        },
    }
}

proof fn lemma_has_rank(frames: Seq<Frame>, id: FrameId)
    ensures
        has_frame(frames, id) <==> position_in(frames, id) is Some,
        has_frame(frames, id) ==> 0 <= rank(frames, id) < frames.len() && frames[rank(frames, id)].id == id,
        !has_frame(frames, id) ==> rank(frames, id) == -1,
{
    lemma_position(frames, id);
    if has_frame(frames, id) {
        let i = choose|i: int| 0 <= i < frames.len() && #[trigger] frames[i].id == id;
        assert(frames[i].id == id);
    }
}

proof fn lemma_unique_rank(frames: Seq<Frame>, k: int)
    requires
        unique_ids(frames),
        0 <= k < frames.len(),
    ensures
        rank(frames, frames[k].id) == k,
        has_frame(frames, frames[k].id),
{
    assert forall|j: int| 0 <= j < k implies (#[trigger] frames[j]).id != frames[k].id by {}
    lemma_position_at(frames, frames[k].id, k);
}

/// A frame inserted at `index` shifts the frames at or after it by one.
proof fn lemma_insert(frames: Seq<Frame>, index: int, frame: Frame, x: FrameId)
    requires
        unique_ids(frames),
        !has_frame(frames, frame.id),
        0 <= index <= frames.len(),
    ensures
        unique_ids(frames.insert(index, frame)),
        has_frame(frames.insert(index, frame), frame.id),
        rank(frames.insert(index, frame), frame.id) == index,
        has_frame(frames, x) ==> has_frame(frames.insert(index, frame), x) && rank(
            frames.insert(index, frame),
            x,
        ) == if rank(frames, x) < index {
            rank(frames, x)
        } else {
            rank(frames, x) + 1
        },
        has_frame(frames.insert(index, frame), x) ==> has_frame(frames, x) || x == frame.id,
{
    let t = frames.insert(index, frame);
    assert forall|i: int, j: int| 0 <= i < j < t.len() implies (#[trigger] t[i]).id != (#[trigger] t[j]).id by {
        if i < index && j < index {
            assert(t[i] == frames[i] && t[j] == frames[j]);
        } else if i < index && j == index {
            assert(t[i] == frames[i]);
        } else if i < index {
            assert(t[i] == frames[i] && t[j] == frames[j - 1]);
        } else if i == index {
            assert(t[j] == frames[j - 1]);
        } else {
            assert(t[i] == frames[i - 1] && t[j] == frames[j - 1]);
        }
    }
    assert(t[index] == frame);
    lemma_unique_rank(t, index);
    if has_frame(frames, x) {
        lemma_has_rank(frames, x);
        let k = rank(frames, x);
        if k < index {
            assert(t[k] == frames[k]);
            lemma_unique_rank(t, k);
        } else {
            assert(t[k + 1] == frames[k]);
            lemma_unique_rank(t, k + 1);
        }
    }
    if has_frame(t, x) && x != frame.id {
        let i = choose|i: int| 0 <= i < t.len() && #[trigger] t[i].id == x;
        if i < index {
            assert(t[i] == frames[i]);
        } else {
            assert(t[i] == frames[i - 1]);
        }
    }
}

/// Removing the frame at `index` shifts the later frames down by one.
proof fn lemma_remove(frames: Seq<Frame>, index: int, x: FrameId)
    requires
        unique_ids(frames),
        0 <= index < frames.len(),
    ensures
        unique_ids(frames.remove(index)),
        !has_frame(frames.remove(index), frames[index].id),
        has_frame(frames, x) && x != frames[index].id ==> has_frame(frames.remove(index), x) && rank(
            frames.remove(index),
            x,
        ) == if rank(frames, x) < index {
            rank(frames, x)
        } else {
            rank(frames, x) - 1
        },
        has_frame(frames.remove(index), x) ==> has_frame(frames, x),
{
    let t = frames.remove(index);
    assert forall|i: int| 0 <= i < t.len() implies #[trigger] t[i] == if i < index {
        frames[i]
    } else {
        frames[i + 1]
    } by {}
    assert forall|i: int, j: int| 0 <= i < j < t.len() implies (#[trigger] t[i]).id != (#[trigger] t[j]).id by {
        if i < index {
            assert(t[i] == frames[i]);
        } else {
            assert(t[i] == frames[i + 1]);
        }
        if j < index {
            assert(t[j] == frames[j]);
        } else {
            assert(t[j] == frames[j + 1]);
        }
    }
    if has_frame(t, frames[index].id) {
        let i = choose|i: int| 0 <= i < t.len() && #[trigger] t[i].id == frames[index].id;
        if i < index {
            assert(frames[i].id == frames[index].id);
        } else {
            assert(frames[i + 1].id == frames[index].id);
        }
    }
    if has_frame(frames, x) && x != frames[index].id {
        lemma_has_rank(frames, x);
        let k = rank(frames, x);
        if k < index {
            assert(t[k] == frames[k]);
            lemma_unique_rank(t, k);
        } else {
            assert(t[k - 1] == frames[k]);
            lemma_unique_rank(t, k - 1);
        }
    }
    if has_frame(t, x) {
        let i = choose|i: int| 0 <= i < t.len() && #[trigger] t[i].id == x;
        if i < index {
            assert(frames[i].id == x);
        } else {
            assert(frames[i + 1].id == x);
        }
    }
}

/// Index of the first frame with the given id.
fn find_frame(frames: &Vec<Frame>, id: FrameId) -> (r: Option<usize>)
    ensures
        match r {
            Some(i) => position_in(frames@, id) == Some(i as int),
            None => position_in(frames@, id) is None,
        },
{
    let mut i: usize = 0;
    while i < frames.len()
        invariant
            i <= frames@.len(),
            forall|j: int| 0 <= j < i ==> (#[trigger] frames@[j]).id != id,
        decreases frames@.len() - i,
    {
        if frames[i].id == id {
            proof {
                lemma_position_at(frames@, id, i as int);
            }
            return Some(i);
        }
        i = i + 1;
    }
    proof {
        lemma_position(frames@, id);
        if let Some(p) = position_in(frames@, id) {
            assert(frames@[p].id == id);
        }
    }
    None
}

/// The rank that a search result stands for.
pub open spec fn rank_of(found: Option<usize>) -> int {
    match found {
        Some(i) => i as int,
        None => -1,
    }
}

/// Whether one search result orders after another, as `Option` orders:
/// nothing before anything.
fn orders_after(a: Option<usize>, b: Option<usize>) -> (r: bool)
    ensures
        r == (rank_of(a) > rank_of(b)),
{
    match (a, b) {
        (Some(x), Some(y)) => x > y,
        (Some(_), None) => true,
        (None, _) => false,
    }
}

/// Timeline state changes that are no edits: they are not recorded in
/// history, but frame-dependent renders become stale.
#[derive(Clone, Copy, Debug, PartialEq, Eq)]
pub enum Navigation {
    SetCurrentFrame { id: FrameId },
    SetPlaying { playing: bool },
    AdvancePlayback,
}

/// Ordered frames, the current frame, the authoritative frame duration, and
/// playback state.
#[derive(Clone, Debug)]
pub struct Timeline {
    frames: Vec<Frame>,
    current_frame: FrameId,
    frame_duration_ms: u32,
    playback: PlaybackMetadata,
}

/// Abstract timeline.
pub struct TimelineView {
    pub frames: Seq<Frame>,
    pub current_frame: FrameId,
    pub frame_duration_ms: u32,
    pub playback: PlaybackMetadata,
}

impl View for Timeline {
    type V = TimelineView;

    closed spec fn view(&self) -> TimelineView {
        TimelineView {
            frames: self.frames@,
            current_frame: self.current_frame,
            frame_duration_ms: self.frame_duration_ms,
            playback: self.playback,
        }
    }
}

/// What every timeline keeps: one to `MAX_FRAMES` frames with distinct ids,
/// all lasting the authoritative duration; the current frame and both ends
/// of the playback range exist, and the range does not run backwards.
pub open spec fn timeline_valid(v: TimelineView) -> bool {
    &&& 1 <= v.frames.len() <= MAX_FRAMES
    &&& unique_ids(v.frames)
    &&& 0 < v.frame_duration_ms <= MAX_FRAME_DURATION_MS
    &&& forall|i: int| 0 <= i < v.frames.len() ==> (#[trigger] v.frames[i]).duration_ms == v.frame_duration_ms
    &&& has_frame(v.frames, v.current_frame)
    &&& has_frame(v.frames, v.playback.range_start)
    &&& has_frame(v.frames, v.playback.range_end)
    &&& rank(v.frames, v.playback.range_start) <= rank(v.frames, v.playback.range_end)
}

/// The timeline with playback stopped.
pub open spec fn stopped(v: TimelineView) -> TimelineView {
    TimelineView { playback: PlaybackMetadata { playing: false, ..v.playback }, ..v }
}

/// The timeline after a new frame is inserted at `index`.
pub open spec fn with_frame(v: TimelineView, id: FrameId, index: int) -> TimelineView {
    stopped(TimelineView { frames: v.frames.insert(index, Frame { id, duration_ms: v.frame_duration_ms }), ..v })
}

/// The timeline after frame `id` is removed: the current frame moves to the
/// next frame (or the previous one at the end), a range end that pointed at
/// the frame moves inward, and a range that would run backwards collapses
/// onto the frame now at the removed position.
pub open spec fn without_frame(v: TimelineView, id: FrameId) -> TimelineView {
    let r = rank(v.frames, id);
    let len = v.frames.len() as int;
    let surviving = if v.current_frame == id {
        v.frames[if r + 1 < len {
            r + 1
        } else {
            r - 1
        }].id
    } else {
        v.current_frame
    };
    let t = v.frames.remove(r);
    let last = len - 2;
    let at_removed = t[if r < last {
        r
    } else {
        last
    }].id;
    let before_removed = if r > 0 {
        r - 1
    } else {
        0
    };
    let start = if v.playback.range_start == id {
        at_removed
    } else {
        v.playback.range_start
    };
    let end = if v.playback.range_end == id {
        t[if before_removed < last {
            before_removed
        } else {
            last
        }].id
    } else {
        v.playback.range_end
    };
    let backwards = rank(t, start) > rank(t, end);
    TimelineView {
        frames: t,
        current_frame: surviving,
        frame_duration_ms: v.frame_duration_ms,
        playback: PlaybackMetadata {
            range_start: if backwards {
                at_removed
            } else {
                start
            },
            range_end: if backwards {
                at_removed
            } else {
                end
            },
            looping: v.playback.looping,
            playing: false,
        },
    }
}

/// The frames after frame `id` moves to `new_index`.
pub open spec fn moved_frames(frames: Seq<Frame>, id: FrameId, new_index: int) -> Seq<Frame> {
    let old_index = rank(frames, id);
    frames.remove(old_index).insert(new_index, frames[old_index])
}

/// Whether the current frame lies inside the playback range.
pub open spec fn current_in_range(v: TimelineView) -> bool {
    rank(v.frames, v.playback.range_start) <= rank(v.frames, v.current_frame) <= rank(
        v.frames,
        v.playback.range_end,
    )
}

/// The timeline after `set_playing`: starting playback outside the range
/// jumps to the range start.
pub open spec fn playing_set(v: TimelineView, playing: bool) -> TimelineView {
    TimelineView {
        current_frame: if playing && !current_in_range(v) {
            v.playback.range_start
        } else {
            v.current_frame
        },
        playback: PlaybackMetadata { playing, ..v.playback },
        ..v
    }
}

/// The timeline after one playback tick: outside the range playback jumps to
/// its start; inside it steps forward; at the end it wraps when looping and
/// stops otherwise. A stopped timeline does not change.
pub open spec fn advanced(v: TimelineView) -> TimelineView {
    if !v.playback.playing {
        v
    } else {
        let current = rank(v.frames, v.current_frame);
        let start = rank(v.frames, v.playback.range_start);
        let end = rank(v.frames, v.playback.range_end);
        if current < start || current > end {
            TimelineView { current_frame: v.playback.range_start, ..v }
        } else if current < end {
            TimelineView { current_frame: v.frames[current + 1].id, ..v }
        } else if v.playback.looping {
            TimelineView { current_frame: v.playback.range_start, ..v }
        } else {
            stopped(v)
        }
    }
}

/// Removing a frame from a valid timeline with more than one frame leaves it
/// valid.
proof fn lemma_without_frame_valid(v: TimelineView, id: FrameId)
    requires
        timeline_valid(v),
        v.frames.len() > 1,
        has_frame(v.frames, id),
    ensures
        timeline_valid(without_frame(v, id)),
{
    lemma_has_rank(v.frames, id);
    let r = rank(v.frames, id);
    let len = v.frames.len() as int;
    let t = v.frames.remove(r);
    let w = without_frame(v, id);
    assert(w.frames == t);
    lemma_remove(v.frames, r, v.current_frame);
    lemma_remove(v.frames, r, v.playback.range_start);
    lemma_remove(v.frames, r, v.playback.range_end);
    if v.current_frame == id {
        let k: int = if r + 1 < len {
            r + 1
        } else {
            r - 1
        };
        assert(v.frames[k].id != v.frames[r].id);
        lemma_remove(v.frames, r, v.frames[k].id);
    }
    let last = len - 2;
    let at_removed: int = if r < last {
        r
    } else {
        last
    };
    lemma_unique_rank(t, at_removed);
    let before_removed: int = if r > 0 {
        r - 1
    } else {
        0
    };
    let k: int = if before_removed < last {
        before_removed
    } else {
        last
    };
    lemma_unique_rank(t, k);
    assert forall|i: int| 0 <= i < t.len() implies (#[trigger] t[i]).duration_ms == v.frame_duration_ms by {
        if i < r {
            assert(t[i] == v.frames[i]);
        } else {
            assert(t[i] == v.frames[i + 1]);
        }
    }
}

/// The first problem with frame `i` of a decoded timeline: 1 for a duration
/// out of bounds, 2 for one that disagrees with the frame rate, 3 for an id
/// that an earlier frame already has, 0 for none.
pub open spec fn frame_fault(frames: Seq<Frame>, duration_ms: u32, i: int) -> int {
    if frames[i].duration_ms == 0 || frames[i].duration_ms > MAX_FRAME_DURATION_MS {
        1
    } else if frames[i].duration_ms != duration_ms {
        2
    } else if has_frame(frames.take(i), frames[i].id) {
        3
    } else {
        0
    }
}

/// The fault of the first faulty frame among the first `n`, or 0.
pub open spec fn first_fault(frames: Seq<Frame>, duration_ms: u32, n: int) -> int
    decreases n,
{
    if n <= 0 {
        0
    } else {
        let earlier = first_fault(frames, duration_ms, n - 1);
        if earlier != 0 {
            earlier
        } else {
            frame_fault(frames, duration_ms, n - 1)
        }
    }
}

/// The message that reports a frame fault.
pub open spec fn fault_message(fault: int) -> &'static str {
    if fault == 1 {
        "frame duration is invalid"
    } else if fault == 2 {
        "frame duration disagrees with timeline fps"
    } else {
        "duplicate frame identifier"
    }
}

proof fn lemma_no_fault_unique(frames: Seq<Frame>, duration_ms: u32, n: int)
    requires
        0 <= n <= frames.len(),
        first_fault(frames, duration_ms, n) == 0,
    ensures
        unique_ids(frames.take(n)),
        forall|i: int| 0 <= i < n ==> (#[trigger] frames[i]).duration_ms == duration_ms,
    decreases n,
{
    if n > 0 {
        lemma_no_fault_unique(frames, duration_ms, n - 1);
        let t = frames.take(n);
        let p = frames.take(n - 1);
        assert forall|i: int, j: int| 0 <= i < j < t.len() implies (#[trigger] t[i]).id != (#[trigger] t[j]).id by {
            if j < n - 1 {
                assert(t[i] == p[i] && t[j] == p[j]);
            } else {
                assert(t[i] == p[i]);
                assert(!has_frame(p, frames[n - 1].id));
            }
        }
    }
}

impl Default for Timeline {
    /// One frame of 100 ms, current and spanning the playback range.
    fn default() -> (t: Self)
        ensures
            t@.frames == seq![Frame { id: FrameId(0), duration_ms: 100 }],
            t@.current_frame == FrameId(0),
            t@.frame_duration_ms == 100,
            t@.playback == (PlaybackMetadata {
                range_start: FrameId(0),
                range_end: FrameId(0),
                looping: false,
                playing: false,
            }),
            timeline_valid(t@),
    {
        let t = Timeline {
            frames: vec![Frame::default()],
            current_frame: FrameId(0),
            frame_duration_ms: 100,
            playback: PlaybackMetadata::default(),
        };
        proof {
            assert(t@.frames[0].id == FrameId(0));
            lemma_unique_rank(t@.frames, 0);
        }
        t
    }
}

impl Timeline {
    pub open spec fn valid(&self) -> bool {
        timeline_valid(self@)
    }

    pub fn frames(&self) -> (r: &[Frame])
        ensures
            r@ == self@.frames,
    {
        self.frames.as_slice()
    }

    pub fn current_frame(&self) -> (r: FrameId)
        ensures
            r == self@.current_frame,
    {
        self.current_frame
    }

    /// Duration of every frame, in milliseconds.
    pub fn frame_duration_ms(&self) -> (r: u32)
        ensures
            r == self@.frame_duration_ms,
    {
        self.frame_duration_ms
    }

    pub fn playback(&self) -> (r: PlaybackMetadata)
        ensures
            r == self@.playback,
    {
        self.playback
    }

    /// Position of the frame with the given id.
    pub fn frame_index(&self, id: FrameId) -> (r: Option<usize>)
        ensures
            match r {
                Some(i) => position_in(self@.frames, id) == Some(i as int),
                None => position_in(self@.frames, id) is None,
            },
            rank_of(r) == rank(self@.frames, id),
    {
        find_frame(&self.frames, id)
    }

    pub fn contains(&self, id: FrameId) -> (r: bool)
        ensures
            r == has_frame(self@.frames, id),
    {
        proof {
            lemma_has_rank(self@.frames, id);
        }
        find_frame(&self.frames, id).is_some()
    }

    /// Inserts a new frame of the authoritative duration at `index` and
    /// stops playback.
    pub fn add_frame(&mut self, id: FrameId, index: usize) -> (r: Result<(), CoreError>)
        requires
            old(self).valid(),
        ensures
            final(self).valid(),
            r is Ok <==> !has_frame(old(self)@.frames, id) && old(self)@.frames.len() < MAX_FRAMES && index
                <= old(self)@.frames.len(),
            has_frame(old(self)@.frames, id) ==> (r matches Err(CoreError::DuplicateFrameId(x)) && x == id),
            !has_frame(old(self)@.frames, id) && old(self)@.frames.len() >= MAX_FRAMES ==> (r matches Err(
                CoreError::DocumentLimitExceeded(m),
            ) && m == "frame count"),
            !has_frame(old(self)@.frames, id) && old(self)@.frames.len() < MAX_FRAMES
                && index > old(self)@.frames.len() ==> (r matches Err(CoreError::FrameIndexOutOfBounds { index: i, len: l }) && i
                == index && l == old(self)@.frames.len()),
            r is Err ==> final(self)@ == old(self)@,
            r is Ok ==> final(self)@ == with_frame(old(self)@, id, index as int),
    {
        if self.contains(id) {
            return Err(CoreError::DuplicateFrameId(id));
        }
        self.insert_checked(id, index)
    }

    /// Inserts a copy of frame `source` under the new id `id` at `index` and
    /// stops playback.
    pub fn duplicate_frame(&mut self, source: FrameId, id: FrameId, index: usize) -> (r: Result<(), CoreError>)
        requires
            old(self).valid(),
        ensures
            final(self).valid(),
            r is Ok <==> !has_frame(old(self)@.frames, id) && has_frame(old(self)@.frames, source)
                && old(self)@.frames.len() < MAX_FRAMES && index <= old(self)@.frames.len(),
            has_frame(old(self)@.frames, id) ==> (r matches Err(CoreError::DuplicateFrameId(x)) && x == id),
            !has_frame(old(self)@.frames, id) && !has_frame(old(self)@.frames, source) ==> (r matches Err(
                CoreError::FrameNotFound(x),
            ) && x == source),
            !has_frame(old(self)@.frames, id) && has_frame(old(self)@.frames, source) && old(self)@.frames.len()
                >= MAX_FRAMES ==> (r matches Err(CoreError::DocumentLimitExceeded(m)) && m == "frame count"),
            !has_frame(old(self)@.frames, id) && has_frame(old(self)@.frames, source) && old(self)@.frames.len()
                < MAX_FRAMES && index > old(self)@.frames.len() ==> (r matches Err(
                CoreError::FrameIndexOutOfBounds { index: i, len: l },
            ) && i == index && l == old(self)@.frames.len()),
            r is Err ==> final(self)@ == old(self)@,
            r is Ok ==> final(self)@ == with_frame(old(self)@, id, index as int),
    {
        if self.contains(id) {
            return Err(CoreError::DuplicateFrameId(id));
        }
        if !self.contains(source) {
            return Err(CoreError::FrameNotFound(source));
        }
        self.insert_checked(id, index)
    }

    fn insert_checked(&mut self, id: FrameId, index: usize) -> (r: Result<(), CoreError>)
        requires
            old(self).valid(),
            !has_frame(old(self)@.frames, id),
        ensures
            final(self).valid(),
            r is Ok <==> old(self)@.frames.len() < MAX_FRAMES && index <= old(self)@.frames.len(),
            old(self)@.frames.len() >= MAX_FRAMES ==> (r matches Err(CoreError::DocumentLimitExceeded(m)) && m
                == "frame count"),
            old(self)@.frames.len() < MAX_FRAMES && index > old(self)@.frames.len() ==> (r matches Err(
                CoreError::FrameIndexOutOfBounds { index: i, len: l },
            ) && i == index && l == old(self)@.frames.len()),
            r is Err ==> final(self)@ == old(self)@,
            r is Ok ==> final(self)@ == with_frame(old(self)@, id, index as int),
    {
        let len = self.frames.len();
        if len >= MAX_FRAMES {
            return Err(CoreError::DocumentLimitExceeded("frame count"));
        }
        if index > len {
            return Err(CoreError::FrameIndexOutOfBounds { index, len });
        }
        let ghost before = self@;
        let frame = Frame::new(id, self.frame_duration_ms);
        self.frames.insert(index, frame);
        self.playback.playing = false;
        proof {
            lemma_insert(before.frames, index as int, frame, before.current_frame);
            lemma_insert(before.frames, index as int, frame, before.playback.range_start);
            lemma_insert(before.frames, index as int, frame, before.playback.range_end);
            assert forall|i: int| 0 <= i < self@.frames.len() implies (#[trigger] self@.frames[i]).duration_ms
                == self@.frame_duration_ms by {
                if i < index {
                    assert(self@.frames[i] == before.frames[i]);
                } else if i > index {
                    assert(self@.frames[i] == before.frames[i - 1]);
                }
            }
        }
        Ok(())
    }

    /// Removes frame `id`, keeping the current frame and the playback range
    /// on surviving frames, stops playback, and returns the new current
    /// frame.
    #[verifier::rlimit(40)]
    pub fn remove_frame(&mut self, id: FrameId) -> (r: Result<FrameId, CoreError>)
        requires
            old(self).valid(),
        ensures
            final(self).valid(),
            r is Ok <==> old(self)@.frames.len() > 1 && has_frame(old(self)@.frames, id),
            old(self)@.frames.len() == 1 ==> (r matches Err(CoreError::LastFrame)),
            old(self)@.frames.len() > 1 && !has_frame(old(self)@.frames, id) ==> (r matches Err(
                CoreError::FrameNotFound(x),
            ) && x == id),
            r is Err ==> final(self)@ == old(self)@,
            r matches Ok(current) ==> final(self)@ == without_frame(old(self)@, id)
                && current == final(self)@.current_frame,
    {
        if self.frames.len() == 1 {
            return Err(CoreError::LastFrame);
        }
        let removed = match find_frame(&self.frames, id) {
            Some(i) => i,
            None => {
                proof {
                    lemma_has_rank(self@.frames, id);
                }
                return Err(CoreError::FrameNotFound(id));
            },
        };
        let ghost before = self@;
        proof {
            lemma_has_rank(before.frames, id);
            lemma_position(before.frames, id);
        }
        let len = self.frames.len();
        let surviving = if self.current_frame == id {
            let k = if removed + 1 < len {
                removed + 1
            } else {
                removed - 1
            };
            self.frames[k].id
        } else {
            self.current_frame
        };
        let old_start = self.playback.range_start;
        let old_end = self.playback.range_end;
        self.frames.remove(removed);
        self.current_frame = surviving;
        let last = self.frames.len() - 1;
        let at_removed = if removed < last {
            removed
        } else {
            last
        };
        if old_start == id {
            self.playback.range_start = self.frames[at_removed].id;
        }
        if old_end == id {
            let before_removed = if removed > 0 {
                removed - 1
            } else {
                0
            };
            let k = if before_removed < last {
                before_removed
            } else {
                last
            };
            self.playback.range_end = self.frames[k].id;
        }
        let ghost old_start_fixed = self.playback.range_start;
        let start_index = find_frame(&self.frames, self.playback.range_start);
        let end_index = find_frame(&self.frames, self.playback.range_end);
        if orders_after(start_index, end_index) {
            let fallback = self.frames[at_removed].id;
            self.playback.range_start = fallback;
            self.playback.range_end = fallback;
        }
        self.playback.playing = false;
        proof {
            lemma_without_frame_valid(before, id);
            let w = without_frame(before, id);
            assert(rank(before.frames, id) == removed);
            assert(self@.frames == w.frames);
            assert(self@.current_frame == w.current_frame);
            assert(rank_of(start_index) == rank(w.frames, old_start_fixed));
            assert(self@.playback == w.playback);
            assert(self@.frame_duration_ms == w.frame_duration_ms);
        }
        Ok(surviving)
    }

    /// Moves frame `id` to `new_index` unless that would put the playback
    /// range start after its end; stops playback.
    pub fn move_frame(&mut self, id: FrameId, new_index: usize) -> (r: Result<(), CoreError>)
        requires
            old(self).valid(),
        ensures
            final(self).valid(),
            r is Ok <==> has_frame(old(self)@.frames, id) && new_index < old(self)@.frames.len() && rank(
                moved_frames(old(self)@.frames, id, new_index as int),
                old(self)@.playback.range_start,
            ) <= rank(moved_frames(old(self)@.frames, id, new_index as int), old(self)@.playback.range_end),
            !has_frame(old(self)@.frames, id) ==> (r matches Err(CoreError::FrameNotFound(x)) && x == id),
            has_frame(old(self)@.frames, id) && new_index >= old(self)@.frames.len() ==> (r matches Err(
                CoreError::FrameIndexOutOfBounds { index: i, len: l },
            ) && i == new_index && l == old(self)@.frames.len()),
            has_frame(old(self)@.frames, id) && new_index < old(self)@.frames.len() && r is Err ==> (r matches Err(
                CoreError::PlaybackRangeOrder,
            )),
            r is Err ==> final(self)@ == old(self)@,
            r is Ok ==> final(self)@ == stopped(
                (TimelineView { frames: moved_frames(old(self)@.frames, id, new_index as int), ..old(self)@ }),
            ),
    {
        let old_index = match find_frame(&self.frames, id) {
            Some(i) => i,
            None => {
                proof {
                    lemma_has_rank(self@.frames, id);
                }
                return Err(CoreError::FrameNotFound(id));
            },
        };
        proof {
            lemma_has_rank(self@.frames, id);
        }
        let len = self.frames.len();
        if new_index >= len {
            return Err(CoreError::FrameIndexOutOfBounds { index: new_index, len });
        }
        let ghost before = self@;
        let mut frames = copy_frames(&self.frames);
        let frame = frames.remove(old_index);
        frames.insert(new_index, frame);
        proof {
            assert(frames@ == moved_frames(before.frames, id, new_index as int));
        }
        let start_index = find_frame(&frames, self.playback.range_start);
        let end_index = find_frame(&frames, self.playback.range_end);
        if orders_after(start_index, end_index) {
            return Err(CoreError::PlaybackRangeOrder);
        }
        proof {
            let t = before.frames.remove(old_index as int);
            lemma_remove(before.frames, old_index as int, before.current_frame);
            lemma_remove(before.frames, old_index as int, before.playback.range_start);
            lemma_remove(before.frames, old_index as int, before.playback.range_end);
            lemma_insert(t, new_index as int, frame, before.current_frame);
            lemma_insert(t, new_index as int, frame, before.playback.range_start);
            lemma_insert(t, new_index as int, frame, before.playback.range_end);
            assert forall|i: int| 0 <= i < frames@.len() implies (#[trigger] frames@[i]).duration_ms
                == before.frame_duration_ms by {
                if i < new_index {
                    assert(frames@[i] == t[i]);
                } else if i > new_index {
                    assert(frames@[i] == t[i - 1]);
                }
                if 0 <= i < t.len() {
                    if i < old_index {
                        assert(t[i] == before.frames[i]);
                    } else {
                        assert(t[i] == before.frames[i + 1]);
                    }
                }
                if 0 <= i - 1 < t.len() {
                    if i - 1 < old_index {
                        assert(t[i - 1] == before.frames[i - 1]);
                    } else {
                        assert(t[i - 1] == before.frames[i]);
                    }
                }
            }
        }
        self.frames = frames;
        self.playback.playing = false;
        Ok(())
    }

    /// Sets the playback range to the frames `start..=end`.
    pub fn set_playback_range(&mut self, start: FrameId, end: FrameId) -> (r: Result<(), CoreError>)
        requires
            old(self).valid(),
        ensures
            final(self).valid(),
            r is Ok <==> has_frame(old(self)@.frames, start) && has_frame(old(self)@.frames, end) && rank(
                old(self)@.frames,
                start,
            ) <= rank(old(self)@.frames, end),
            !has_frame(old(self)@.frames, start) ==> (r matches Err(CoreError::FrameNotFound(x)) && x == start),
            has_frame(old(self)@.frames, start) && !has_frame(old(self)@.frames, end) ==> (r matches Err(
                CoreError::FrameNotFound(x),
            ) && x == end),
            has_frame(old(self)@.frames, start) && has_frame(old(self)@.frames, end) && rank(
                old(self)@.frames,
                start,
            ) > rank(old(self)@.frames, end) ==> (r matches Err(CoreError::InvalidPlaybackRange)),
            r is Err ==> final(self)@ == old(self)@,
            r is Ok ==> final(self)@ == (TimelineView {
                playback: PlaybackMetadata { range_start: start, range_end: end, ..old(self)@.playback },
                ..old(self)@
            }),
    {
        proof {
            lemma_has_rank(self@.frames, start);
            lemma_has_rank(self@.frames, end);
        }
        let start_index = match find_frame(&self.frames, start) {
            Some(i) => i,
            None => return Err(CoreError::FrameNotFound(start)),
        };
        let end_index = match find_frame(&self.frames, end) {
            Some(i) => i,
            None => return Err(CoreError::FrameNotFound(end)),
        };
        if start_index > end_index {
            return Err(CoreError::InvalidPlaybackRange);
        }
        self.playback.range_start = start;
        self.playback.range_end = end;
        Ok(())
    }

    pub fn set_looping(&mut self, looping: bool)
        requires
            old(self).valid(),
        ensures
            final(self).valid(),
            final(self)@ == (TimelineView { playback: PlaybackMetadata { looping, ..old(self)@.playback }, ..old(self)@ }),
    {
        self.playback.looping = looping;
    }

    /// Shows frame `id`.
    pub fn set_current_frame(&mut self, id: FrameId) -> (r: Result<(), CoreError>)
        requires
            old(self).valid(),
        ensures
            final(self).valid(),
            r is Ok <==> has_frame(old(self)@.frames, id),
            r is Err ==> (r matches Err(CoreError::FrameNotFound(x)) && x == id) && final(self)@ == old(self)@,
            r is Ok ==> final(self)@ == (TimelineView { current_frame: id, ..old(self)@ }),
    {
        if !self.contains(id) {
            return Err(CoreError::FrameNotFound(id));
        }
        self.current_frame = id;
        Ok(())
    }

    /// Starts or stops playback; starting outside the range jumps to its
    /// start.
    pub fn set_playing(&mut self, playing: bool)
        requires
            old(self).valid(),
        ensures
            final(self).valid(),
            final(self)@ == playing_set(old(self)@, playing),
    {
        if playing {
            let current = find_frame(&self.frames, self.current_frame);
            let start = find_frame(&self.frames, self.playback.range_start);
            let end = find_frame(&self.frames, self.playback.range_end);
            let inside = match (current, start, end) {
                (Some(c), Some(s), Some(e)) => s <= c && c <= e,
                _ => false,
            };
            proof {
                lemma_has_rank(self@.frames, self@.current_frame);
                lemma_has_rank(self@.frames, self@.playback.range_start);
                lemma_has_rank(self@.frames, self@.playback.range_end);
            }
            if !inside {
                self.current_frame = self.playback.range_start;
            }
        }
        self.playback.playing = playing;
    }

    /// One playback tick.
    pub fn advance_playback(&mut self)
        requires
            old(self).valid(),
        ensures
            final(self).valid(),
            final(self)@ == advanced(old(self)@),
    {
        if !self.playback.playing {
            return;
        }
        proof {
            lemma_has_rank(self@.frames, self@.current_frame);
            lemma_has_rank(self@.frames, self@.playback.range_start);
            lemma_has_rank(self@.frames, self@.playback.range_end);
        }
        let current = match find_frame(&self.frames, self.current_frame) {
            Some(i) => i,
            None => 0,
        };
        let start = match find_frame(&self.frames, self.playback.range_start) {
            Some(i) => i,
            None => 0,
        };
        let end = match find_frame(&self.frames, self.playback.range_end) {
            Some(i) => i,
            None => start,
        };
        if current < start || current > end {
            self.current_frame = self.playback.range_start;
        } else if current < end {
            proof {
                lemma_unique_rank(self@.frames, current + 1);
            }
            self.current_frame = self.frames[current + 1].id;
        } else if self.playback.looping {
            self.current_frame = self.playback.range_start;
        } else {
            self.playback.playing = false;
        }
    }

    /// Applies a navigation step, which changes what is shown or played but
    /// is no edit. Reports whether the shown canvas may have changed: always
    /// for a frame switch or a playback tick, and for starting or stopping
    /// playback only when it moved the current frame.
    pub fn navigate(&mut self, navigation: Navigation) -> (r: Result<bool, CoreError>)
        requires
            old(self).valid(),
        ensures
            final(self).valid(),
            match navigation {
                Navigation::SetCurrentFrame { id } => {
                    &&& r is Ok <==> has_frame(old(self)@.frames, id)
                    &&& r is Ok ==> r == Ok::<bool, CoreError>(true) && final(self)@ == (
                    TimelineView { current_frame: id, ..old(self)@ })
                    &&& r is Err ==> (r matches Err(CoreError::FrameNotFound(x)) && x == id)
                        && final(self)@ == old(self)@
                },
                Navigation::SetPlaying { playing } => {
                    &&& final(self)@ == playing_set(old(self)@, playing)
                    &&& r == Ok::<bool, CoreError>(
                        final(self)@.current_frame != old(self)@.current_frame,
                    )
                },
                Navigation::AdvancePlayback => {
                    &&& final(self)@ == advanced(old(self)@)
                    &&& r == Ok::<bool, CoreError>(true)
                },
            },
    {
        match navigation {
            Navigation::SetCurrentFrame { id } => {
                self.set_current_frame(id)?;
                Ok(true)
            },
            Navigation::SetPlaying { playing } => {
                let before = self.current_frame;
                self.set_playing(playing);
                Ok(!(self.current_frame == before))
            },
            Navigation::AdvancePlayback => {
                self.advance_playback();
                Ok(true)
            },
        }
    }

    /// An independent copy of the timeline.
    pub fn duplicate(&self) -> (r: Self)
        ensures
            r@ == self@,
            r.valid() == self.valid(),
    {
        let mut frames: Vec<Frame> = Vec::new();
        let mut i: usize = 0;
        while i < self.frames.len()
            invariant
                i <= self.frames@.len(),
                frames@ == self.frames@.take(i as int),
            decreases self.frames@.len() - i,
        {
            frames.push(self.frames[i]);
            proof {
                assert(frames@ =~= self.frames@.take(i + 1));
            }
            i = i + 1;
        }
        proof {
            assert(frames@ =~= self.frames@);
        }
        Timeline {
            frames,
            current_frame: self.current_frame,
            frame_duration_ms: self.frame_duration_ms,
            playback: self.playback,
        }
    }

    pub fn stop_playback(&mut self)
        requires
            old(self).valid(),
        ensures
            final(self).valid(),
            final(self)@ == stopped(old(self)@),
    {
        self.playback.playing = false;
    }

    /// Gives every frame the new authoritative duration.
    pub fn set_frame_duration_ms(&mut self, duration_ms: u32)
        requires
            old(self).valid(),
            0 < duration_ms <= MAX_FRAME_DURATION_MS,
        ensures
            final(self).valid(),
            final(self)@.frame_duration_ms == duration_ms,
            final(self)@.frames.len() == old(self)@.frames.len(),
            forall|i: int| 0 <= i < old(self)@.frames.len() ==> (#[trigger] final(self)@.frames[i]) == (Frame {
                id: old(self)@.frames[i].id,
                duration_ms,
            }),
            final(self)@.current_frame == old(self)@.current_frame,
            final(self)@.playback == old(self)@.playback,
    {
        let ghost before = self@;
        let len = self.frames.len();
        let mut frames: Vec<Frame> = Vec::with_capacity(len);
        let mut i: usize = 0;
        while i < len
            invariant
                len == before.frames.len(),
                self@ == before,
                i <= len,
                frames@.len() == i,
                forall|k: int| 0 <= k < i ==> (#[trigger] frames@[k]) == (Frame { id: before.frames[k].id, duration_ms }),
            decreases len - i,
        {
            frames.push(Frame::new(self.frames[i].id, duration_ms));
            i = i + 1;
        }
        self.frames = frames;
        self.frame_duration_ms = duration_ms;
        proof {
            assert forall|a: int, b: int| 0 <= a < b < self@.frames.len() implies (#[trigger] self@.frames[a]).id
                != (#[trigger] self@.frames[b]).id by {
                assert(before.frames[a].id != before.frames[b].id);
            }
            assert forall|x: FrameId| #[trigger] has_frame(before.frames, x) implies has_frame(self@.frames, x) && rank(
                self@.frames,
                x,
            ) == rank(before.frames, x) by {
                lemma_has_rank(before.frames, x);
                lemma_unique_rank(self@.frames, rank(before.frames, x));
            }
        }
    }
}

fn copy_frames(frames: &Vec<Frame>) -> (r: Vec<Frame>)
    ensures
        r@ == frames@,
{
    let mut out: Vec<Frame> = Vec::with_capacity(frames.len());
    let mut i: usize = 0;
    while i < frames.len()
        invariant
            i <= frames@.len(),
            out@ == frames@.take(i as int),
        decreases frames@.len() - i,
    {
        out.push(frames[i]);
        proof {
            assert(out@ =~= frames@.take(i + 1));
        }
        i = i + 1;
    }
    proof {
        assert(frames@.take(frames@.len() as int) =~= frames@);
    }
    out
}

/// Adding a new frame and then removing it gives back the timeline, with
/// playback stopped.
pub proof fn law_add_then_remove_restores(v: TimelineView, id: FrameId, index: int)
    requires
        timeline_valid(v),
        !has_frame(v.frames, id),
        0 <= index <= v.frames.len(),
    ensures
        without_frame(with_frame(v, id, index), id) == stopped(v),
{
    let f = Frame { id, duration_ms: v.frame_duration_ms };
    let t = v.frames.insert(index, f);
    lemma_insert(v.frames, index, f, v.playback.range_start);
    lemma_insert(v.frames, index, f, v.playback.range_end);
    lemma_has_rank(v.frames, v.current_frame);
    lemma_has_rank(v.frames, v.playback.range_start);
    lemma_has_rank(v.frames, v.playback.range_end);
    assert(t.remove(index) =~= v.frames);
    let w = without_frame(with_frame(v, id, index), id);
    assert(w.frames == v.frames);
    assert(w.playback == stopped(v).playback);
}

/// Starting playback always leaves the current frame inside the range.
pub proof fn law_play_starts_in_range(v: TimelineView)
    requires
        timeline_valid(v),
    ensures
        current_in_range(playing_set(v, true)),
        playing_set(v, true).playback.playing,
{
}

/// A playback tick never leaves the range while playback continues.
pub proof fn law_playback_stays_in_range(v: TimelineView)
    requires
        timeline_valid(v),
    ensures
        advanced(v).playback.playing ==> current_in_range(advanced(v)),
        timeline_valid(advanced(v)),
{
    lemma_has_rank(v.frames, v.current_frame);
    lemma_has_rank(v.frames, v.playback.range_start);
    lemma_has_rank(v.frames, v.playback.range_end);
    let current = rank(v.frames, v.current_frame);
    let end = rank(v.frames, v.playback.range_end);
    if v.playback.playing && current < end && rank(v.frames, v.playback.range_start) <= current {
        lemma_unique_rank(v.frames, current + 1);
    }
}

/// Moving a frame keeps exactly the same frames and puts the moved one at
/// its new position.
pub proof fn law_move_keeps_frames(v: TimelineView, id: FrameId, new_index: int, x: FrameId)
    requires
        timeline_valid(v),
        has_frame(v.frames, id),
        0 <= new_index < v.frames.len(),
    ensures
        moved_frames(v.frames, id, new_index).len() == v.frames.len(),
        moved_frames(v.frames, id, new_index)[new_index].id == id,
        has_frame(moved_frames(v.frames, id, new_index), x) <==> has_frame(v.frames, x),
{
    lemma_has_rank(v.frames, id);
    let old_index = rank(v.frames, id);
    let t = v.frames.remove(old_index);
    lemma_remove(v.frames, old_index, x);
    lemma_insert(t, new_index, v.frames[old_index], x);
}

/// Removing a frame keeps every other frame and only those.
pub proof fn law_remove_keeps_other_frames(v: TimelineView, id: FrameId, x: FrameId)
    requires
        timeline_valid(v),
        v.frames.len() > 1,
        has_frame(v.frames, id),
    ensures
        has_frame(without_frame(v, id).frames, x) <==> has_frame(v.frames, x) && x != id,
        without_frame(v, id).frames.len() == v.frames.len() - 1,
{
    lemma_has_rank(v.frames, id);
    lemma_remove(v.frames, rank(v.frames, id), x);
}

impl Timeline {
    /// A timeline from decoded parts, checked frame by frame.
    /// `frame_duration_ms` is the duration that the decoded frame rate
    /// implies, or `None` when that rate is invalid.
    pub fn from_parts(
        frames: Vec<Frame>,
        current_frame: FrameId,
        frame_duration_ms: Option<u32>,
        playback: PlaybackMetadata,
    ) -> (r: Result<Timeline, CoreError>)
        ensures
            r matches Ok(t) ==> t.valid() && t@ == (TimelineView {
                frames: frames@,
                current_frame,
                frame_duration_ms: frame_duration_ms->0,
                playback,
            }),
            frames@.len() == 0 || frames@.len() > MAX_FRAMES ==> (r matches Err(
                CoreError::DocumentLimitExceeded(m),
            ) && m == "frame count"),
            1 <= frames@.len() <= MAX_FRAMES && frame_duration_ms is None ==> (r matches Err(
                CoreError::MalformedProject(m),
            ) && m@ == "timeline fps is invalid"@),
            frame_duration_ms matches Some(d) ==> (1 <= frames@.len() <= MAX_FRAMES ==> {
                let fault = first_fault(frames@, d, frames@.len() as int);
                let start = playback.range_start;
                let end = playback.range_end;
                &&& fault != 0 ==> (r matches Err(CoreError::MalformedProject(m)) && m@ == fault_message(fault)@)
                &&& fault == 0 && !has_frame(frames@, current_frame) ==> (r matches Err(
                    CoreError::MalformedProject(m),
                ) && m@ == "current timeline frame does not exist"@)
                &&& fault == 0 && has_frame(frames@, current_frame) && !has_frame(frames@, start) ==> (r matches Err(
                    CoreError::MalformedProject(m),
                ) && m@ == "playback range start does not exist"@)
                &&& fault == 0 && has_frame(frames@, current_frame) && has_frame(frames@, start) && !has_frame(
                    frames@,
                    end,
                ) ==> (r matches Err(CoreError::MalformedProject(m)) && m@
                    == "playback range end does not exist"@)
                &&& fault == 0 && has_frame(frames@, current_frame) && has_frame(frames@, start) && has_frame(
                    frames@,
                    end,
                ) ==> (rank(frames@, start) > rank(frames@, end) ==> (r matches Err(
                    CoreError::MalformedProject(m),
                ) && m@ == "playback range is invalid"@)) && (rank(frames@, start) <= rank(frames@, end)
                    ==> r is Ok)
            }),
    {
        broadcast use vstd::std_specs::hash::group_hash_axioms;

        let len = frames.len();
        if len == 0 || len > MAX_FRAMES {
            return Err(CoreError::DocumentLimitExceeded("frame count"));
        }
        let duration = match frame_duration_ms {
            Some(d) => d,
            None => return Err(CoreError::MalformedProject(String::from_str("timeline fps is invalid"))),
        };
        let mut seen: HashSet<u32> = HashSet::new();
        let mut i: usize = 0;
        while i < len
            invariant
                len == frames@.len(),
                1 <= len <= MAX_FRAMES,
                frame_duration_ms == Some(duration),
                i <= len,
                first_fault(frames@, duration, i as int) == 0,
                forall|x: u32| #[trigger] seen@.contains(x) <==> has_frame(frames@.take(i as int), FrameId(x)),
            decreases len - i,
        {
            let frame = frames[i];
            let ghost prefix = frames@.take(i as int);
            let ghost next = frames@.take(i + 1);
            proof {
                assert forall|x: FrameId| has_frame(next, x) <==> has_frame(prefix, x) || frame.id == x by {
                    if has_frame(next, x) {
                        let k = choose|k: int| 0 <= k < next.len() && #[trigger] next[k].id == x;
                        if k < i {
                            assert(prefix[k] == next[k]);
                        }
                    }
                    if has_frame(prefix, x) {
                        let k = choose|k: int| 0 <= k < prefix.len() && #[trigger] prefix[k].id == x;
                        assert(next[k] == prefix[k]);
                    }
                    if frame.id == x {
                        assert(next[i as int] == frame);
                    }
                }
            }
            if frame.duration_ms == 0 || frame.duration_ms > MAX_FRAME_DURATION_MS {
                proof {
                    assert(first_fault(frames@, duration, i + 1) == 1);
                    lemma_fault_sticks(frames@, duration, i + 1, len as int);
                }
                return Err(CoreError::MalformedProject(String::from_str("frame duration is invalid")));
            }
            if frame.duration_ms != duration {
                proof {
                    lemma_fault_sticks(frames@, duration, i + 1, len as int);
                }
                return Err(
                    CoreError::MalformedProject(String::from_str("frame duration disagrees with timeline fps")),
                );
            }
            let fresh = seen.insert(frame.id.0);
            if !fresh {
                proof {
                    assert(seen@.contains(frame.id.0) || !fresh);
                    assert(has_frame(prefix, FrameId(frame.id.0)));
                    assert(FrameId(frame.id.0) == frame.id);
                    lemma_fault_sticks(frames@, duration, i + 1, len as int);
                }
                return Err(CoreError::MalformedProject(String::from_str("duplicate frame identifier")));
            }
            proof {
                assert(!has_frame(prefix, frame.id)) by {
                    assert(!seen@.remove(frame.id.0).contains(frame.id.0));
                }
                assert(first_fault(frames@, duration, i + 1) == 0);
                assert forall|x: u32| #[trigger] seen@.contains(x) <==> has_frame(next, FrameId(x)) by {
                    assert(has_frame(next, FrameId(x)) <==> has_frame(prefix, FrameId(x)) || frame.id == FrameId(x));
                }
            }
            i = i + 1;
        }
        proof {
            assert(frames@.take(len as int) =~= frames@);
            lemma_no_fault_unique(frames@, duration, len as int);
            lemma_has_rank(frames@, current_frame);
            lemma_has_rank(frames@, playback.range_start);
            lemma_has_rank(frames@, playback.range_end);
            assert(frames@[0].duration_ms == duration);
        }
        if find_frame(&frames, current_frame).is_none() {
            return Err(CoreError::MalformedProject(String::from_str("current timeline frame does not exist")));
        }
        let start = match find_frame(&frames, playback.range_start) {
            Some(i) => i,
            None => return Err(CoreError::MalformedProject(String::from_str("playback range start does not exist"))),
        };
        let end = match find_frame(&frames, playback.range_end) {
            Some(i) => i,
            None => return Err(CoreError::MalformedProject(String::from_str("playback range end does not exist"))),
        };
        if start > end {
            return Err(CoreError::MalformedProject(String::from_str("playback range is invalid")));
        }
        Ok(Timeline { frames, current_frame, frame_duration_ms: duration, playback })
    }
}

/// Once a fault is found among the first `n` frames, it is the first fault
/// among any longer prefix too.
proof fn lemma_fault_sticks(frames: Seq<Frame>, duration_ms: u32, n: int, m: int)
    requires
        0 <= n <= m,
        first_fault(frames, duration_ms, n) != 0,
    ensures
        first_fault(frames, duration_ms, m) == first_fault(frames, duration_ms, n),
    decreases m - n,
{
    if n < m {
        lemma_fault_sticks(frames, duration_ms, n, m - 1);
    }
}

/// What is wrong with a raster cel, in the order it is checked.
pub enum CelFault {
    /// The cel belongs to a frame the timeline does not have.
    UnknownFrame(FrameId),
    /// An earlier cel already belongs to the same frame.
    DuplicateFrame,
    /// The cel does not hold a whole canvas of RGBA pixels.
    WrongLength(usize),
}

/// The fault of cel `i`, if it has one.
pub open spec fn cel_fault(cels: Seq<RasterCel>, frames: Seq<Frame>, expected: usize, i: int) -> Option<
    CelFault,
> {
    if !has_frame(frames, cels[i].frame) {
        Some(CelFault::UnknownFrame(cels[i].frame))
    } else if exists|j: int| 0 <= j < i && (#[trigger] cels[j]).frame == cels[i].frame {
        Some(CelFault::DuplicateFrame)
    } else if cels[i].pixels@.len() != expected {
        Some(CelFault::WrongLength(cels[i].pixels@.len() as usize))
    } else {
        None
    }
}

/// The fault of the first faulty cel among the first `n`.
pub open spec fn first_cel_fault(cels: Seq<RasterCel>, frames: Seq<Frame>, expected: usize, n: int) -> Option<
    CelFault,
>
    decreases n,
{
    if n <= 0 {
        None
    } else {
        match first_cel_fault(cels, frames, expected, n - 1) {
            Some(f) => Some(f),
            None => cel_fault(cels, frames, expected, n - 1),
        }
    }
}

/// The message naming a frame the timeline does not have.
pub open spec fn unknown_frame_message(frame: FrameId) -> Seq<char> {
    "raster cel references unknown frame "@ + decimal(frame.0 as nat)
}

/// The error a cel fault is reported as.
pub open spec fn cel_error_matches(fault: CelFault, expected: usize, e: CoreError) -> bool {
    match fault {
        CelFault::UnknownFrame(frame) => e matches CoreError::MalformedProject(m) && m@
            == unknown_frame_message(frame),
        CelFault::DuplicateFrame => e matches CoreError::MalformedProject(m) && m@
            == "duplicate raster cel frame"@,
        CelFault::WrongLength(actual) => e == CoreError::InvalidBufferLength { expected, actual },
    }
}

fn unknown_frame_text(frame: FrameId) -> (message: String)
    ensures
        message@ == unknown_frame_message(frame),
{
    let head = chars_of("raster cel references unknown frame ");
    let mut out: Vec<u8> = Vec::new();
    push_chars(&mut out, head.as_slice());
    push_decimal(&mut out, frame.0 as usize);
    proof {
        lemma_encode_utf8_concat("raster cel references unknown frame "@, decimal(frame.0 as nat));
    }
    text_of_encoding(out, Ghost(unknown_frame_message(frame)))
}

impl Timeline {
    /// Checks the cels of a raster node: one to as many cels as there are
    /// frames, each of a frame of this timeline, no two of the same frame,
    /// and each a whole canvas of `expected_rgba` bytes.
    pub fn validate_raster_cels(&self, cels: &[RasterCel], expected_rgba: usize) -> (r: Result<
        (),
        CoreError,
    >)
        requires
            self.valid(),
        ensures
            cels@.len() == 0 || cels@.len() > self@.frames.len() ==> r == Err::<(), CoreError>(
                CoreError::DocumentLimitExceeded("raster cel count"),
            ),
            0 < cels@.len() <= self@.frames.len() ==> match first_cel_fault(
                cels@,
                self@.frames,
                expected_rgba,
                cels@.len() as int,
            ) {
                None => r is Ok,
                Some(fault) => r matches Err(e) && cel_error_matches(fault, expected_rgba, e),
            },
    {
        if cels.len() == 0 || cels.len() > self.frames.len() {
            return Err(CoreError::DocumentLimitExceeded("raster cel count"));
        }
        let mut i: usize = 0;
        while i < cels.len()
            invariant
                i <= cels@.len(),
                0 < cels@.len() <= self@.frames.len(),
                first_cel_fault(cels@, self@.frames, expected_rgba, i as int) is None,
                self@.frames == self.frames@,
                self.valid(),
            decreases cels@.len() - i,
        {
            let frame = cels[i].frame;
            if !self.contains(frame) {
                proof {
                    lemma_first_cel_fault_sticks(cels@, self@.frames, expected_rgba, i + 1, cels@.len() as int);
                }
                return Err(CoreError::MalformedProject(unknown_frame_text(frame)));
            }
            let mut j: usize = 0;
            while j < i
                invariant
                    j <= i < cels@.len(),
                    0 < cels@.len() <= self@.frames.len(),
                    first_cel_fault(cels@, self@.frames, expected_rgba, i as int) is None,
                    has_frame(self@.frames, frame),
                    frame == cels@[i as int].frame,
                    forall|k: int| 0 <= k < j ==> (#[trigger] cels@[k]).frame != frame,
                decreases i - j,
            {
                if cels[j].frame.0 == frame.0 {
                    proof {
                        assert(cels@[j as int].frame == cels@[i as int].frame);
                        assert(cel_fault(cels@, self@.frames, expected_rgba, i as int) == Some(CelFault::DuplicateFrame));
                        lemma_first_cel_fault_sticks(cels@, self@.frames, expected_rgba, i + 1, cels@.len() as int);
                    }
                    return Err(CoreError::MalformedProject(String::from_str("duplicate raster cel frame")));
                }
                j = j + 1;
            }
            let actual = cels[i].pixels().len();
            if actual != expected_rgba {
                proof {
                    lemma_first_cel_fault_sticks(cels@, self@.frames, expected_rgba, i + 1, cels@.len() as int);
                }
                return Err(CoreError::InvalidBufferLength { expected: expected_rgba, actual });
            }
            i = i + 1;
        }
        Ok(())
    }
}

/// Once a prefix has a faulty cel, every longer prefix reports that fault.
proof fn lemma_first_cel_fault_sticks(cels: Seq<RasterCel>, frames: Seq<Frame>, expected: usize, m: int, n: int)
    requires
        0 <= m <= n,
        first_cel_fault(cels, frames, expected, m) is Some,
    ensures
        first_cel_fault(cels, frames, expected, n) == first_cel_fault(cels, frames, expected, m),
    decreases n - m,
{
    if m < n {
        lemma_first_cel_fault_sticks(cels, frames, expected, m, n - 1);
    }
}

/// A cel as its frame and its bytes.
pub open spec fn cel_view(cel: RasterCel) -> (FrameId, Seq<u8>) {
    (cel.frame, cel.pixels@)
}

/// The cels that do not belong to frame `id`, in order.
pub open spec fn cels_kept(cels: Seq<RasterCel>, id: FrameId) -> Seq<(FrameId, Seq<u8>)>
    decreases cels.len(),
{
    if cels.len() == 0 {
        seq![]
    } else if cels.last().frame == id {
        cels_kept(cels.drop_last(), id)
    } else {
        cels_kept(cels.drop_last(), id).push(cel_view(cels.last()))
    }
}

/// The cels of a raster node once frame `id` is gone: the others, in order;
/// a node left with none gets one transparent cel of `cel_bytes` bytes for
/// the frame that survives.
pub open spec fn cels_after_removal(
    cels: Seq<RasterCel>,
    id: FrameId,
    surviving: FrameId,
    cel_bytes: usize,
) -> Seq<(FrameId, Seq<u8>)> {
    if cels_kept(cels, id).len() == 0 {
        seq![(surviving, Seq::new(cel_bytes as nat, |i: int| 0u8))]
    } else {
        cels_kept(cels, id)
    }
}

/// Removes the cel of frame `id` from a raster node's cels, keeping every
/// raster node with at least one cel.
pub fn cels_without_frame(cels: &[RasterCel], id: FrameId, surviving: FrameId, cel_bytes: usize) -> (r: Vec<
    RasterCel,
>)
    ensures
        r@.map_values(|c: RasterCel| cel_view(c)) == cels_after_removal(cels@, id, surviving, cel_bytes),
{
    let mut kept: Vec<RasterCel> = Vec::new();
    let mut i: usize = 0;
    while i < cels.len()
        invariant
            i <= cels@.len(),
            kept@.map_values(|c: RasterCel| cel_view(c)) == cels_kept(cels@.take(i as int), id),
        decreases cels@.len() - i,
    {
        proof {
            assert(cels@.take(i + 1).drop_last() =~= cels@.take(i as int));
            assert(cels@.take(i + 1).last() == cels@[i as int]);
        }
        if cels[i].frame.0 != id.0 {
            let ghost before = kept@;
            let cel = RasterCel { frame: cels[i].frame, pixels: cels[i].pixels.clone() };
            kept.push(cel);
            proof {
                assert(kept@.map_values(|c: RasterCel| cel_view(c)) =~= before.map_values(
                    |c: RasterCel| cel_view(c),
                ).push(cel_view(cels@[i as int])));
            }
        }
        i = i + 1;
    }
    proof {
        assert(cels@.take(cels@.len() as int) =~= cels@);
    }
    if kept.len() == 0 {
        let mut fresh: Vec<RasterCel> = Vec::new();
        fresh.push(RasterCel { frame: surviving, pixels: RasterBytes::zeroed(cel_bytes) });
        proof {
            assert(fresh@.map_values(|c: RasterCel| cel_view(c)) =~= cels_after_removal(
                cels@,
                id,
                surviving,
                cel_bytes,
            ));
        }
        fresh
    } else {
        kept
    }
}

/// Bytes of the cel of frame `id` among the first `n` nodes' cels, and how
/// many of those nodes hold that cel alone.
pub open spec fn removal_counts(layers: Seq<Vec<RasterCel>>, id: FrameId, n: int) -> (int, int)
    decreases n,
{
    if n <= 0 {
        (0, 0)
    } else {
        let (bytes, alone) = removal_counts(layers, id, n - 1);
        let cels = layers[n - 1]@;
        let first = first_cel_of(cels, id, cels.len() as int);
        (
            bytes + match first {
                Some(k) => cels[k].pixels@.len() as int,
                None => 0,
            },
            alone + if cels.len() == 1 && cels[0].frame == id {
                1int
            } else {
                0
            },
        )
    }
}

/// Index of the first of the first `n` cels that belongs to frame `id`.
pub open spec fn first_cel_of(cels: Seq<RasterCel>, id: FrameId, n: int) -> Option<int>
    decreases n,
{
    if n <= 0 {
        None
    } else {
        match first_cel_of(cels, id, n - 1) {
            Some(k) => Some(k),
            None => if cels[n - 1].frame == id {
                Some(n - 1)
            } else {
                None
            },
        }
    }
}

proof fn lemma_first_cel_of_bounds(cels: Seq<RasterCel>, id: FrameId, n: int)
    ensures
        first_cel_of(cels, id, n) matches Some(k) ==> 0 <= k < n,
    decreases n,
{
    if n > 0 {
        lemma_first_cel_of_bounds(cels, id, n - 1);
    }
}

/// What stored raster bytes removing frame `id` leaves: `stored` less the
/// bytes of each raster node's cel of that frame, plus a new transparent
/// cel for each node whose only cel it was (both saturating).
pub open spec fn bytes_after_removal(
    stored: u64,
    layers: Seq<Vec<RasterCel>>,
    id: FrameId,
    cel_bytes: u64,
) -> int {
    let (removed, alone) = removal_counts(layers, id, layers.len() as int);
    let kept = if stored >= removed {
        stored - removed
    } else {
        0
    };
    let added = if alone * cel_bytes <= u64::MAX {
        alone * cel_bytes
    } else {
        u64::MAX as int
    };
    if kept + added <= u64::MAX {
        kept + added
    } else {
        u64::MAX as int
    }
}

/// Refuses removing frame `id` when the cels it would leave behind exceed
/// the stored raster budget; `layers` holds the cels of every raster node.
pub fn check_frame_removal_budget(stored: u64, layers: &[Vec<RasterCel>], id: FrameId, cel_bytes: u64) -> (r:
    Result<(), CoreError>)
    requires
        layers@.len() <= MAX_NODES,
        forall|i: int| 0 <= i < layers@.len() ==> (#[trigger] layers@[i])@.len() <= MAX_FRAMES,
        forall|i: int, k: int|
            0 <= i < layers@.len() && 0 <= k < layers@[i]@.len() ==> (#[trigger] layers@[i]@[k]).pixels@.len()
                <= MAX_STORED_RASTER_BYTES,
    ensures
        r is Ok <==> bytes_after_removal(stored, layers@, id, cel_bytes) <= MAX_STORED_RASTER_BYTES,
        r is Err ==> r == Err::<(), CoreError>(CoreError::DocumentLimitExceeded("stored raster bytes")),
{
    let mut removed: u64 = 0;
    let mut alone: u64 = 0;
    let mut i: usize = 0;
    while i < layers.len()
        invariant
            i <= layers@.len(),
            layers@.len() <= MAX_NODES,
            forall|i: int| 0 <= i < layers@.len() ==> (#[trigger] layers@[i])@.len() <= MAX_FRAMES,
            forall|i: int, k: int|
                0 <= i < layers@.len() && 0 <= k < layers@[i]@.len() ==> (#[trigger] layers@[i]@[k]).pixels@.len()
                    <= MAX_STORED_RASTER_BYTES,
            (removed as int, alone as int) == removal_counts(layers@, id, i as int),
            removed <= i * MAX_STORED_RASTER_BYTES,
            alone <= i,
        decreases layers@.len() - i,
    {
        let cels = &layers[i];
        let mut k: usize = 0;
        let mut found: Option<usize> = None;
        while k < cels.len()
            invariant
                i < layers@.len(),
                k <= cels@.len(),
                cels == layers@[i as int],
                found == match first_cel_of(cels@, id, k as int) {
                    Some(j) => Some(j as usize),
                    None => None::<usize>,
                },
                found matches Some(j) ==> j < k,
            decreases cels@.len() - k,
        {
            proof {
                lemma_first_cel_of_bounds(cels@, id, k as int);
            }
            if found.is_none() && cels[k].frame.0 == id.0 {
                found = Some(k);
            }
            k = k + 1;
        }
        let bytes = match found {
            Some(j) => cels[j].pixels.len() as u64,
            None => 0,
        };
        assert(removed + bytes <= (i + 1) * MAX_STORED_RASTER_BYTES) by (nonlinear_arith)
            requires
                removed <= i * MAX_STORED_RASTER_BYTES,
                bytes <= MAX_STORED_RASTER_BYTES,
        ;
        assert((i + 1) * MAX_STORED_RASTER_BYTES <= MAX_NODES * MAX_STORED_RASTER_BYTES) by (nonlinear_arith)
            requires
                i + 1 <= MAX_NODES,
        ;
        let ghost before = (removed as int, alone as int);
        removed = removed + bytes;
        if cels.len() == 1 && cels[0].frame.0 == id.0 {
            alone = alone + 1;
        }
        proof {
            let c = layers@[i as int]@;
            assert(cels@ == c);
            lemma_first_cel_of_bounds(c, id, c.len() as int);
            assert(before == removal_counts(layers@, id, i as int));
            assert(bytes == match first_cel_of(c, id, c.len() as int) {
                Some(k) => c[k].pixels@.len() as int,
                None => 0,
            });
            assert((removed as int, alone as int) == removal_counts(layers@, id, i + 1));
        }
        i = i + 1;
    }
    let kept = stored.saturating_sub(removed);
    let added = match alone.checked_mul(cel_bytes) {
        Some(v) => v,
        None => u64::MAX,
    };
    let target = kept.saturating_add(added);
    if target > MAX_STORED_RASTER_BYTES {
        return Err(CoreError::DocumentLimitExceeded("stored raster bytes"));
    }
    Ok(())
}

/// Removes frame `id` from a document's timeline and from the cels of its
/// raster nodes (`layers` holds each raster node's cels): refused when it is
/// the last frame, when the timeline has no such frame, or when the cels
/// left behind would pass the stored raster budget, and then nothing
/// changes. Otherwise the timeline loses the frame, every raster node loses
/// its cel of that frame, and a node left without cels gets a transparent
/// cel of `cel_bytes` bytes for the new current frame.
pub fn remove_frame_and_cels(
    timeline: &mut Timeline,
    layers: &mut Vec<Vec<RasterCel>>,
    stored: u64,
    id: FrameId,
    cel_bytes: usize,
) -> (r: Result<(), CoreError>)
    requires
        old(timeline).valid(),
        old(layers)@.len() <= MAX_NODES,
        forall|i: int| 0 <= i < old(layers)@.len() ==> (#[trigger] old(layers)@[i])@.len() <= MAX_FRAMES,
        forall|i: int, k: int|
            0 <= i < old(layers)@.len() && 0 <= k < old(layers)@[i]@.len() ==> (#[trigger] old(
                layers,
            )@[i]@[k]).pixels@.len() <= MAX_STORED_RASTER_BYTES,
    ensures
        final(timeline).valid(),
        old(timeline)@.frames.len() == 1 ==> r matches Err(CoreError::LastFrame),
        old(timeline)@.frames.len() > 1 && !has_frame(old(timeline)@.frames, id) ==> (r matches Err(
            CoreError::FrameNotFound(x),
        ) && x == id),
        old(timeline)@.frames.len() > 1 && has_frame(old(timeline)@.frames, id) ==> (r is Ok
            <==> bytes_after_removal(stored, old(layers)@, id, cel_bytes as u64) <= MAX_STORED_RASTER_BYTES),
        old(timeline)@.frames.len() > 1 && has_frame(old(timeline)@.frames, id) && r is Err ==> r
            == Err::<(), CoreError>(CoreError::DocumentLimitExceeded("stored raster bytes")),
        r is Err ==> final(timeline)@ == old(timeline)@ && final(layers)@ == old(layers)@,
        r is Ok ==> final(timeline)@ == without_frame(old(timeline)@, id) && final(layers)@.len() == old(
            layers,
        )@.len() && forall|i: int|
            0 <= i < old(layers)@.len() ==> (#[trigger] final(layers)@[i])@.map_values(
                |c: RasterCel| cel_view(c),
            ) == cels_after_removal(
                old(layers)@[i]@,
                id,
                without_frame(old(timeline)@, id).current_frame,
                cel_bytes,
            ),
{
    if timeline.frames.len() == 1 {
        return Err(CoreError::LastFrame);
    }
    if !timeline.contains(id) {
        return Err(CoreError::FrameNotFound(id));
    }
    match check_frame_removal_budget(stored, layers.as_slice(), id, cel_bytes as u64) {
        Ok(()) => {},
        Err(e) => return Err(e),
    }
    let ghost before = layers@;
    let surviving = match timeline.remove_frame(id) {
        Ok(current) => current,
        Err(e) => return Err(e),
    };
    let n = layers.len();
    let mut i: usize = 0;
    while i < n
        invariant
            n == before.len(),
            layers@.len() == n,
            i <= n,
            forall|k: int|
                0 <= k < i ==> (#[trigger] layers@[k])@.map_values(|c: RasterCel| cel_view(c))
                    == cels_after_removal(before[k]@, id, surviving, cel_bytes),
            forall|k: int| i <= k < n ==> #[trigger] layers@[k] == before[k],
        decreases n - i,
    {
        let updated = cels_without_frame(layers[i].as_slice(), id, surviving, cel_bytes);
        layers.set(i, updated);
        i = i + 1;
    }
    Ok(())
}

} // verus!
