use redrob::canvas::document::{Frame, FrameId, PlaybackMetadata, RasterCel};
use redrob::canvas::error::CoreError;
use redrob::canvas::timeline::{
    check_frame_removal_budget, cels_without_frame, remove_frame_and_cels, Navigation, Timeline,
};

fn ids(timeline: &Timeline) -> Vec<u32> {
    timeline.frames().iter().map(|frame| frame.id.get()).collect()
}

fn three_frames() -> Timeline {
    let mut timeline = Timeline::default();
    timeline.add_frame(FrameId::new(1), 1).unwrap();
    timeline.add_frame(FrameId::new(2), 2).unwrap();
    timeline
}

#[test]
fn default_timeline_has_one_current_frame() {
    let timeline = Timeline::default();
    assert_eq!(ids(&timeline), vec![0]);
    assert_eq!(timeline.current_frame(), FrameId::new(0));
    assert_eq!(timeline.frame_duration_ms(), 100);
    assert_eq!(timeline.playback(), PlaybackMetadata::default());
    assert_eq!(timeline.frame_index(FrameId::new(0)), Some(0));
    assert!(!timeline.contains(FrameId::new(7)));
}

#[test]
fn frame_insertion_is_ordered_typed_and_transactional() {
    let mut timeline = three_frames();
    assert_eq!(ids(&timeline), vec![0, 1, 2]);
    assert!(timeline.frames().iter().all(|frame| frame.duration_ms() == 100));
    assert!(matches!(
        timeline.add_frame(FrameId::new(1), 0),
        Err(CoreError::DuplicateFrameId(FrameId(1)))
    ));
    assert!(matches!(
        timeline.add_frame(FrameId::new(9), 4),
        Err(CoreError::FrameIndexOutOfBounds { index: 4, len: 3 })
    ));
    assert!(matches!(
        timeline.duplicate_frame(FrameId::new(8), FrameId::new(9), 0),
        Err(CoreError::FrameNotFound(FrameId(8)))
    ));
    assert_eq!(ids(&timeline), vec![0, 1, 2]);
    timeline.duplicate_frame(FrameId::new(2), FrameId::new(9), 0).unwrap();
    assert_eq!(ids(&timeline), vec![9, 0, 1, 2]);
}

#[test]
fn removing_frames_keeps_current_and_range_on_survivors() {
    let mut timeline = three_frames();
    timeline.set_current_frame(FrameId::new(1)).unwrap();
    timeline.set_playback_range(FrameId::new(1), FrameId::new(2)).unwrap();
    let current = timeline.remove_frame(FrameId::new(1)).unwrap();
    assert_eq!(current, FrameId::new(2));
    assert_eq!(ids(&timeline), vec![0, 2]);
    assert_eq!(timeline.playback().range_start, FrameId::new(2));
    assert_eq!(timeline.playback().range_end, FrameId::new(2));
    assert!(matches!(
        timeline.remove_frame(FrameId::new(5)),
        Err(CoreError::FrameNotFound(FrameId(5)))
    ));
    timeline.remove_frame(FrameId::new(2)).unwrap();
    assert_eq!(timeline.current_frame(), FrameId::new(0));
    assert!(matches!(timeline.remove_frame(FrameId::new(0)), Err(CoreError::LastFrame)));
}

#[test]
fn removing_last_position_current_uses_previous_frame_and_clamps_range_end() {
    let mut timeline = three_frames();
    timeline.set_current_frame(FrameId::new(2)).unwrap();
    timeline.set_playback_range(FrameId::new(0), FrameId::new(2)).unwrap();
    timeline.remove_frame(FrameId::new(2)).unwrap();
    assert_eq!(timeline.current_frame(), FrameId::new(1));
    assert_eq!(timeline.playback().range_end, FrameId::new(1));
}

#[test]
fn add_then_remove_restores_the_timeline() {
    let mut timeline = three_frames();
    timeline.set_playing(true);
    let before = timeline.clone();
    timeline.add_frame(FrameId::new(7), 1).unwrap();
    timeline.remove_frame(FrameId::new(7)).unwrap();
    assert_eq!(timeline.frames(), before.frames());
    assert_eq!(timeline.current_frame(), before.current_frame());
    assert_eq!(timeline.playback().range_start, before.playback().range_start);
    assert_eq!(timeline.playback().range_end, before.playback().range_end);
    assert!(!timeline.playback().playing);
}

#[test]
fn move_frame_rejects_reversed_ranges_and_out_of_bounds() {
    let mut timeline = three_frames();
    timeline.set_playback_range(FrameId::new(1), FrameId::new(2)).unwrap();
    assert!(matches!(
        timeline.move_frame(FrameId::new(2), 0),
        Err(CoreError::PlaybackRangeOrder)
    ));
    assert!(matches!(
        timeline.move_frame(FrameId::new(2), 3),
        Err(CoreError::FrameIndexOutOfBounds { index: 3, len: 3 })
    ));
    assert!(matches!(
        timeline.move_frame(FrameId::new(4), 0),
        Err(CoreError::FrameNotFound(FrameId(4)))
    ));
    assert_eq!(ids(&timeline), vec![0, 1, 2]);
    timeline.move_frame(FrameId::new(0), 2).unwrap();
    assert_eq!(ids(&timeline), vec![1, 2, 0]);
}

#[test]
fn playback_range_must_exist_and_be_ordered() {
    let mut timeline = three_frames();
    assert!(matches!(
        timeline.set_playback_range(FrameId::new(2), FrameId::new(0)),
        Err(CoreError::InvalidPlaybackRange)
    ));
    assert!(matches!(
        timeline.set_playback_range(FrameId::new(9), FrameId::new(0)),
        Err(CoreError::FrameNotFound(FrameId(9)))
    ));
    assert!(matches!(
        timeline.set_playback_range(FrameId::new(0), FrameId::new(9)),
        Err(CoreError::FrameNotFound(FrameId(9)))
    ));
    assert!(matches!(
        timeline.set_current_frame(FrameId::new(9)),
        Err(CoreError::FrameNotFound(FrameId(9)))
    ));
}

#[test]
fn playback_steps_wraps_when_looping_and_stops_at_the_end() {
    let mut timeline = three_frames();
    timeline.set_playback_range(FrameId::new(1), FrameId::new(2)).unwrap();
    timeline.set_playing(true);
    assert_eq!(timeline.current_frame(), FrameId::new(1));
    timeline.advance_playback();
    assert_eq!(timeline.current_frame(), FrameId::new(2));
    timeline.advance_playback();
    assert!(!timeline.playback().playing);
    assert_eq!(timeline.current_frame(), FrameId::new(2));

    timeline.set_looping(true);
    timeline.set_playing(true);
    timeline.advance_playback();
    assert_eq!(timeline.current_frame(), FrameId::new(1));
    assert!(timeline.playback().playing);
    timeline.stop_playback();
    timeline.advance_playback();
    assert_eq!(timeline.current_frame(), FrameId::new(1));
}

#[test]
fn frame_duration_applies_to_every_frame() {
    let mut timeline = three_frames();
    timeline.set_frame_duration_ms(42);
    assert!(timeline.frames().iter().all(|frame| frame.duration_ms() == 42));
    timeline.add_frame(FrameId::new(3), 0).unwrap();
    assert_eq!(timeline.frames()[0], Frame::new(FrameId::new(3), 42));
}

#[test]
fn decoded_timelines_are_checked_in_order() {
    let frames = vec![Frame::new(FrameId::new(0), 100), Frame::new(FrameId::new(1), 100)];
    let playback = PlaybackMetadata::default();
    assert!(Timeline::from_parts(frames.clone(), FrameId::new(1), Some(100), playback).is_ok());
    assert!(matches!(
        Timeline::from_parts(Vec::new(), FrameId::new(0), Some(100), playback),
        Err(CoreError::DocumentLimitExceeded("frame count"))
    ));
    let message = |result: Result<Timeline, CoreError>| match result {
        Err(CoreError::MalformedProject(message)) => message,
        other => panic!("unexpected {other:?}"),
    };
    assert_eq!(
        message(Timeline::from_parts(frames.clone(), FrameId::new(0), None, playback)),
        "timeline fps is invalid"
    );
    assert_eq!(
        message(Timeline::from_parts(frames.clone(), FrameId::new(0), Some(50), playback)),
        "frame duration disagrees with timeline fps"
    );
    let zero = vec![Frame::new(FrameId::new(0), 0)];
    assert_eq!(
        message(Timeline::from_parts(zero, FrameId::new(0), Some(100), playback)),
        "frame duration is invalid"
    );
    let duplicate = vec![Frame::new(FrameId::new(3), 100), Frame::new(FrameId::new(3), 100)];
    assert_eq!(
        message(Timeline::from_parts(duplicate, FrameId::new(3), Some(100), playback)),
        "duplicate frame identifier"
    );
    assert_eq!(
        message(Timeline::from_parts(frames.clone(), FrameId::new(5), Some(100), playback)),
        "current timeline frame does not exist"
    );
    let reversed = PlaybackMetadata {
        range_start: FrameId::new(1),
        range_end: FrameId::new(0),
        looping: false,
        playing: false,
    };
    assert_eq!(
        message(Timeline::from_parts(frames, FrameId::new(0), Some(100), reversed)),
        "playback range is invalid"
    );
}

#[test]
fn navigation_switches_frames_starts_playback_and_ticks() {
    let mut timeline = three_frames();
    timeline
        .set_playback_range(FrameId::new(1), FrameId::new(2))
        .unwrap();
    assert!(matches!(timeline.navigate(Navigation::SetCurrentFrame { id: FrameId::new(0) }), Ok(true)));
    assert!(matches!(
        timeline.navigate(Navigation::SetCurrentFrame { id: FrameId::new(9) }),
        Err(CoreError::FrameNotFound(FrameId(9)))
    ));
    assert_eq!(timeline.current_frame(), FrameId::new(0));

    // Starting outside the range jumps to its start, which changes the canvas.
    assert!(matches!(timeline.navigate(Navigation::SetPlaying { playing: true }), Ok(true)));
    assert_eq!(timeline.current_frame(), FrameId::new(1));
    assert!(timeline.playback().playing);
    // Starting again inside the range leaves the frame alone.
    assert!(matches!(timeline.navigate(Navigation::SetPlaying { playing: true }), Ok(false)));
    assert!(matches!(timeline.navigate(Navigation::AdvancePlayback), Ok(true)));
    assert_eq!(timeline.current_frame(), FrameId::new(2));
    assert!(matches!(timeline.navigate(Navigation::AdvancePlayback), Ok(true)));
    assert!(!timeline.playback().playing);
    assert_eq!(timeline.current_frame(), FrameId::new(2));
    assert!(matches!(timeline.navigate(Navigation::SetPlaying { playing: false }), Ok(false)));
}

#[test]
fn raster_cels_must_cover_known_distinct_frames_with_whole_canvases() {
    let timeline = three_frames();
    let cel = |frame: u32, bytes: usize| RasterCel::new(FrameId::new(frame), vec![0; bytes]);
    assert!(timeline.validate_raster_cels(&[cel(0, 8), cel(2, 8)], 8).is_ok());
    assert!(matches!(
        timeline.validate_raster_cels(&[], 8),
        Err(CoreError::DocumentLimitExceeded("raster cel count"))
    ));
    let four = [cel(0, 8), cel(1, 8), cel(2, 8), cel(0, 8)];
    assert!(matches!(
        timeline.validate_raster_cels(&four, 8),
        Err(CoreError::DocumentLimitExceeded("raster cel count"))
    ));
    match timeline.validate_raster_cels(&[cel(0, 8), cel(42, 8)], 8) {
        Err(CoreError::MalformedProject(message)) => {
            assert_eq!(message, "raster cel references unknown frame 42")
        }
        other => panic!("unexpected {other:?}"),
    }
    match timeline.validate_raster_cels(&[cel(1, 8), cel(1, 8)], 8) {
        Err(CoreError::MalformedProject(message)) => assert_eq!(message, "duplicate raster cel frame"),
        other => panic!("unexpected {other:?}"),
    }
    assert!(matches!(
        timeline.validate_raster_cels(&[cel(1, 8), cel(2, 4)], 8),
        Err(CoreError::InvalidBufferLength { expected: 8, actual: 4 })
    ));
}

#[test]
fn removing_a_frame_drops_its_cels_and_keeps_every_raster_node_drawable() {
    let cel = |frame: u32, byte: u8| RasterCel::new(FrameId::new(frame), vec![byte; 4]);
    let frames = |cels: &[RasterCel]| cels.iter().map(|c| c.frame().get()).collect::<Vec<_>>();
    let kept = cels_without_frame(&[cel(0, 1), cel(1, 2), cel(2, 3)], FrameId::new(1), FrameId::new(2), 4);
    assert_eq!(frames(&kept), vec![0, 2]);
    assert_eq!(kept[1].pixels(), &[3, 3, 3, 3]);
    let refilled = cels_without_frame(&[cel(1, 9)], FrameId::new(1), FrameId::new(2), 4);
    assert_eq!(frames(&refilled), vec![2]);
    assert_eq!(refilled[0].pixels(), &[0, 0, 0, 0]);

    let layers = vec![vec![cel(0, 1), cel(1, 2)], vec![cel(1, 5)]];
    // 16 stored - 8 removed + 4 for the node left without cels = 12
    assert!(check_frame_removal_budget(16, &layers, FrameId::new(1), 4).is_ok());
    let big = 1024 * 1024 * 1024;
    assert!(check_frame_removal_budget(big, &layers, FrameId::new(1), 4).is_ok());
    assert!(matches!(
        check_frame_removal_budget(big + 5, &layers, FrameId::new(1), 4),
        Err(CoreError::DocumentLimitExceeded("stored raster bytes"))
    ));
}

#[test]
fn removing_a_frame_updates_timeline_and_cels_together() {
    let mut timeline = Timeline::default();
    timeline.add_frame(FrameId::new(1), 1).unwrap();
    let mut layers = vec![
        vec![RasterCel::new(FrameId::new(0), vec![9; 4])],
        vec![
            RasterCel::new(FrameId::new(0), vec![1; 4]),
            RasterCel::new(FrameId::new(1), vec![2; 4]),
        ],
    ];
    remove_frame_and_cels(&mut timeline, &mut layers, 12, FrameId::new(0), 4).unwrap();
    assert_eq!(ids(&timeline), vec![1]);
    assert_eq!(timeline.current_frame(), FrameId::new(1));
    assert_eq!(layers[0].len(), 1);
    assert_eq!(layers[0][0].frame, FrameId::new(1));
    assert_eq!(layers[0][0].pixels(), &[0, 0, 0, 0]);
    assert_eq!(layers[1].len(), 1);
    assert_eq!(layers[1][0].pixels(), &[2, 2, 2, 2]);

    assert!(matches!(
        remove_frame_and_cels(&mut timeline, &mut layers, 8, FrameId::new(1), 4),
        Err(CoreError::LastFrame)
    ));
}

#[test]
fn frame_removal_refusals_change_nothing() {
    let mut timeline = Timeline::default();
    timeline.add_frame(FrameId::new(1), 1).unwrap();
    let mut layers = vec![vec![RasterCel::new(FrameId::new(0), vec![9; 4])]];
    assert!(matches!(
        remove_frame_and_cels(&mut timeline, &mut layers, 4, FrameId::new(7), 4),
        Err(CoreError::FrameNotFound(id)) if id == FrameId::new(7)
    ));
    assert!(matches!(
        remove_frame_and_cels(&mut timeline, &mut layers, 1 << 30, FrameId::new(0), 16),
        Err(CoreError::DocumentLimitExceeded("stored raster bytes"))
    ));
    assert_eq!(ids(&timeline), vec![0, 1]);
    assert_eq!(layers[0][0].pixels(), &[9, 9, 9, 9]);
}
