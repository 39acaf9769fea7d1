use redrob::canvas::document::Rect;
use redrob::canvas::error::CoreError;
use redrob::canvas::selection::{
    box_blur_pass, extreme_pass, validate_radius, Selection, SelectionMode,
};

fn coverage_grid(selection: &Selection) -> Vec<u8> {
    let mut out = Vec::new();
    for y in 0..selection.height() {
        for x in 0..selection.width() {
            out.push(selection.coverage(x, y));
        }
    }
    out
}

#[test]
fn new_selection_is_inactive_and_covers_everything() {
    let selection = Selection::new(3, 2).unwrap();
    assert!(!selection.is_active());
    assert_eq!(selection.mask(), &[0, 0, 0, 0, 0, 0]);
    assert_eq!(coverage_grid(&selection), vec![255; 6]);
    assert_eq!(selection.coverage(10, 10), 255);
    assert!(matches!(
        Selection::new(0, 2),
        Err(CoreError::InvalidDimensions { width: 0, height: 2 })
    ));
    assert!(matches!(
        Selection::new(32_769, 1),
        Err(CoreError::InvalidDimensions { width: 32_769, height: 1 })
    ));
}

#[test]
fn rect_replace_selects_only_the_clipped_rectangle() {
    let mut selection = Selection::new(4, 3).unwrap();
    selection.apply_rect(Rect::new(-1, 1, 3, 5), SelectionMode::Replace);
    assert!(selection.is_active());
    assert_eq!(
        coverage_grid(&selection),
        vec![0, 0, 0, 0, 255, 255, 0, 0, 255, 255, 0, 0]
    );
    assert_eq!(selection.coverage(4, 0), 0);
    selection.apply_rect(Rect::new(10, 10, 2, 2), SelectionMode::Replace);
    assert_eq!(coverage_grid(&selection), vec![0; 12]);
}

#[test]
fn boolean_modes_combine_saturating_and_by_minimum() {
    let mut selection = Selection::new(3, 1).unwrap();
    selection.apply_rect(Rect::new(0, 0, 2, 1), SelectionMode::Replace);
    selection.apply_rect(Rect::new(1, 0, 2, 1), SelectionMode::Add);
    assert_eq!(selection.mask(), &[255, 255, 255]);
    selection.apply_rect(Rect::new(0, 0, 1, 1), SelectionMode::Subtract);
    assert_eq!(selection.mask(), &[0, 255, 255]);
    selection.apply_rect(Rect::new(2, 0, 1, 1), SelectionMode::Intersect);
    assert_eq!(selection.mask(), &[0, 0, 255]);

    let mut inactive = Selection::new(3, 1).unwrap();
    inactive.apply_rect(Rect::new(0, 0, 1, 1), SelectionMode::Subtract);
    assert_eq!(inactive.mask(), &[255, 0, 0]);
}

#[test]
fn invert_complements_and_twice_restores() {
    let mut selection = Selection::new(2, 2).unwrap();
    selection.invert();
    assert!(selection.is_active());
    assert_eq!(coverage_grid(&selection), vec![0; 4]);
    selection.apply_rect(Rect::new(0, 0, 1, 1), SelectionMode::Replace);
    let before = selection.snapshot_bytes();
    selection.invert();
    assert_eq!(selection.mask(), &[0, 255, 255, 255]);
    selection.invert();
    assert_eq!(selection.snapshot_bytes(), before);
}

#[test]
fn clear_and_select_all_reset_the_mask() {
    let mut selection = Selection::new(2, 1).unwrap();
    selection.apply_rect(Rect::new(0, 0, 1, 1), SelectionMode::Replace);
    selection.clear();
    assert!(!selection.is_active());
    assert_eq!(selection.mask(), &[0, 0]);
    assert_eq!(coverage_grid(&selection), vec![255, 255]);
    selection.select_all();
    assert!(selection.is_active());
    assert_eq!(selection.mask(), &[255, 255]);
}

#[test]
fn select_all_then_subtract_matches_inverted_rectangle() {
    let rect = Rect::new(1, 0, 2, 2);
    let mut subtracted = Selection::new(4, 2).unwrap();
    subtracted.select_all();
    subtracted.apply_rect(rect, SelectionMode::Subtract);
    let mut inverted = Selection::new(4, 2).unwrap();
    inverted.apply_rect(rect, SelectionMode::Replace);
    inverted.invert();
    assert_eq!(subtracted.mask(), inverted.mask());
}

#[test]
fn radius_limits_are_exact() {
    let mut selection = Selection::new(2, 2).unwrap();
    selection.select_all();
    assert!(selection.feather(4_096).is_ok());
    assert!(matches!(
        selection.feather(4_097),
        Err(CoreError::InvalidSelectionRadius(4_097))
    ));
    assert!(matches!(
        selection.grow(4_097),
        Err(CoreError::InvalidSelectionRadius(4_097))
    ));
    assert!(matches!(
        selection.shrink(4_097),
        Err(CoreError::InvalidSelectionRadius(4_097))
    ));
    assert!(validate_radius(4_096).is_ok());
    assert!(matches!(validate_radius(4_097), Err(CoreError::InvalidSelectionRadius(4_097))));
}

#[test]
fn grow_and_shrink_use_square_windows_with_zero_padding() {
    let mut selection = Selection::new(5, 5).unwrap();
    selection.apply_rect(Rect::new(2, 2, 1, 1), SelectionMode::Replace);
    let original = selection.snapshot_bytes();
    selection.grow(1).unwrap();
    let grown = coverage_grid(&selection);
    for y in 0..5_usize {
        for x in 0..5_usize {
            let inside = (1..=3).contains(&x) && (1..=3).contains(&y);
            assert_eq!(grown[y * 5 + x], if inside { 255 } else { 0 });
            assert!(grown[y * 5 + x] >= original[y * 5 + x]);
        }
    }
    selection.shrink(1).unwrap();
    assert_eq!(selection.snapshot_bytes(), original);

    let mut full = Selection::new(3, 3).unwrap();
    full.select_all();
    full.shrink(1).unwrap();
    assert_eq!(full.mask(), &[0, 0, 0, 0, 255, 0, 0, 0, 0]);
}

#[test]
fn zero_radius_and_inactive_selection_leave_masks_unchanged() {
    let mut selection = Selection::new(3, 1).unwrap();
    selection.grow(2).unwrap();
    assert!(!selection.is_active());
    assert_eq!(selection.mask(), &[0, 0, 0]);
    selection.apply_rect(Rect::new(1, 0, 1, 1), SelectionMode::Replace);
    selection.feather(0).unwrap();
    assert_eq!(selection.mask(), &[0, 255, 0]);
}

#[test]
fn feather_averages_over_the_full_window() {
    let mut selection = Selection::new(3, 1).unwrap();
    selection.apply_rect(Rect::new(1, 0, 1, 1), SelectionMode::Replace);
    selection.feather(1).unwrap();
    // Horizontal: each entry is (sum + 1) / 3; vertical with one row: (sum + 1) / 3.
    assert_eq!(selection.mask(), &[28, 28, 28]);
}

#[test]
fn passes_follow_rows_or_columns() {
    let input = [0_u8, 90, 0, 0, 0, 0];
    assert_eq!(box_blur_pass(&input, 3, 2, 1, true), vec![30, 30, 30, 0, 0, 0]);
    assert_eq!(box_blur_pass(&input, 3, 2, 1, false), vec![0, 30, 0, 0, 30, 0]);
    assert_eq!(extreme_pass(&input, 3, 2, 1, true, true), vec![90, 90, 90, 0, 0, 0]);
    assert_eq!(extreme_pass(&input, 3, 2, 1, false, true), vec![0, 90, 0, 0, 90, 0]);
    assert_eq!(extreme_pass(&[5, 6, 7], 3, 1, 1, true, false), vec![0, 5, 0]);
}

#[test]
fn crop_moves_coverage_and_fills_outside_with_zero() {
    let mut selection = Selection::new(3, 2).unwrap();
    selection.apply_rect(Rect::new(1, 0, 2, 1), SelectionMode::Replace);
    selection.crop(Rect::new(1, 0, 3, 2)).unwrap();
    assert_eq!(selection.width(), 3);
    assert_eq!(selection.height(), 2);
    assert_eq!(selection.mask(), &[255, 255, 0, 0, 0, 0]);
    assert!(matches!(
        selection.crop(Rect::new(0, 0, 0, 1)),
        Err(CoreError::InvalidDimensions { width: 0, height: 1 })
    ));
    assert_eq!(selection.width(), 3);

    let mut inactive = Selection::new(2, 2).unwrap();
    inactive.crop(Rect::new(0, 0, 1, 1)).unwrap();
    assert!(!inactive.is_active());
    assert_eq!(inactive.mask(), &[0]);
}

#[test]
fn imported_parts_are_validated_against_the_canvas() {
    let selection = Selection::from_import_parts(2, 1, true, vec![1, 2]).unwrap();
    assert_eq!(selection.mask(), &[1, 2]);
    assert!(selection.validate(2, 1).is_ok());
    assert!(matches!(selection.validate(1, 2), Err(CoreError::MalformedProject(_))));
    assert!(matches!(
        Selection::from_import_parts(2, 1, true, vec![1]),
        Err(CoreError::InvalidBufferLength { expected: 2, actual: 1 })
    ));
    assert!(matches!(
        Selection::from_import_parts(0, 1, false, vec![]),
        Err(CoreError::InvalidDimensions { width: 0, height: 1 })
    ));
    let legacy = Selection::from_v1_parts(5, 5, false, vec![7]);
    assert_eq!(legacy.mask_storage().as_slice(), &[7]);
    assert!(matches!(
        legacy.validate(5, 5),
        Err(CoreError::InvalidBufferLength { expected: 25, actual: 1 })
    ));
}
