use redrob::canvas::document::{
    crop_bytes, pixel_count, FrameId, Pixel, Rect, SemanticUsage, admit_semantic_replacement,
    flip_pixels, MAX_SEMANTIC_MEMORY_BYTES};
use redrob::canvas::error::CoreError;
use redrob::canvas::filters::{
    apply_filter, blend_selection, box_blur_rgba, IntegerFilter, box_blur_rgba_pass, invert_colors, posterize, premultiply,
    unpremultiply, validate_radius,
};
use redrob::canvas::raster::RasterBytes;
use redrob::canvas::selection::{Selection, SelectionMode};

#[test]
fn invert_keeps_alpha_and_trailing_bytes() {
    let mut pixels = vec![10, 20, 30, 40, 0, 255, 128, 7, 99];
    invert_colors(&mut pixels);
    assert_eq!(pixels, vec![245, 235, 225, 40, 255, 0, 127, 7, 99]);
    invert_colors(&mut pixels);
    assert_eq!(pixels, vec![10, 20, 30, 40, 0, 255, 128, 7, 99]);
}

#[test]
fn posterize_validates_levels_and_snaps_channels() {
    let mut pixels = vec![0, 100, 200, 50];
    assert!(matches!(posterize(&mut pixels, 1), Err(CoreError::InvalidFilterParameter)));
    assert!(matches!(posterize(&mut pixels, 257), Err(CoreError::InvalidFilterParameter)));
    assert_eq!(pixels, vec![0, 100, 200, 50]);
    posterize(&mut pixels, 2).unwrap();
    assert_eq!(pixels, vec![0, 0, 255, 50]);
    let mut full = vec![0, 100, 200, 50];
    posterize(&mut full, 256).unwrap();
    assert_eq!(full, vec![0, 100, 200, 50]);
    let mut three = vec![100, 128, 170, 255];
    posterize(&mut three, 3).unwrap();
    assert_eq!(three, vec![128, 128, 128, 255]);
}

#[test]
fn premultiply_round_trips_opaque_pixels_and_clears_transparent_ones() {
    let opaque = vec![12, 34, 56, 255, 200, 100, 50, 255];
    assert_eq!(unpremultiply(premultiply(&opaque)), opaque);
    assert_eq!(premultiply(&[200, 100, 50, 128]), vec![100, 50, 25, 128]);
    assert_eq!(unpremultiply(vec![100, 50, 25, 128]), vec![199, 100, 50, 128]);
    assert_eq!(unpremultiply(vec![9, 9, 9, 0]), vec![0, 0, 0, 0]);
    assert_eq!(unpremultiply(vec![200, 9, 9, 100]), vec![255, 23, 23, 100]);
}

#[test]
fn rgba_box_blur_divides_by_the_window_part_on_the_line() {
    let input = [90, 0, 0, 255, 0, 0, 0, 255, 0, 0, 0, 255];
    let pass = box_blur_rgba_pass(&input, 3, 1, 1, true);
    assert_eq!(pass, vec![45, 0, 0, 255, 30, 0, 0, 255, 0, 0, 0, 255]);
    let uniform = [10, 20, 30, 255].repeat(6);
    assert_eq!(box_blur_rgba(&uniform, 3, 2, 2), uniform);
    assert!(validate_radius(1).is_ok());
    assert!(matches!(validate_radius(0), Err(CoreError::InvalidFilterParameter)));
    assert!(matches!(validate_radius(4_097), Err(CoreError::InvalidFilterParameter)));
}

#[test]
fn every_filtered_pixel_outside_the_selection_keeps_its_original_value() {
    let mut selection = Selection::new(2, 1).unwrap();
    selection.apply_rect(Rect::new(0, 0, 1, 1), SelectionMode::Replace);
    let original = vec![10, 20, 30, 40, 50, 60, 70, 80];
    let mut filtered = original.clone();
    invert_colors(&mut filtered);
    blend_selection(&selection, &original, &mut filtered);
    assert_eq!(filtered, vec![245, 235, 225, 40, 50, 60, 70, 80]);

    let everything = Selection::new(2, 1).unwrap();
    let mut all = original.clone();
    invert_colors(&mut all);
    blend_selection(&everything, &original, &mut all);
    assert_eq!(all, vec![245, 235, 225, 40, 205, 195, 185, 80]);
}

#[test]
fn partial_coverage_mixes_filtered_and_original_values() {
    let selection = Selection::from_import_parts(1, 1, true, vec![128]).unwrap();
    let original = vec![0, 255, 100, 255];
    let mut filtered = vec![255, 0, 100, 255];
    blend_selection(&selection, &original, &mut filtered);
    assert_eq!(filtered, vec![128, 127, 100, 255]);
}

#[test]
fn pixel_counts_and_crops_are_bounded() {
    assert_eq!(pixel_count(4, 3).unwrap(), 12);
    assert!(matches!(
        pixel_count(8_192, 8_193),
        Err(CoreError::InvalidDimensions { width: 8_192, height: 8_193 })
    ));
    assert!(pixel_count(8_192, 8_192).is_ok());
    let input = [1, 2, 3, 4, 5, 6];
    let output = crop_bytes(&input, 3, 2, Rect::new(1, 1, 3, 1), 1, 3);
    assert_eq!(output, vec![5, 6, 0]);
    let rgba = [1, 1, 1, 1, 2, 2, 2, 2];
    assert_eq!(crop_bytes(&rgba, 2, 1, Rect::new(-1, 0, 2, 1), 4, 2), vec![0, 0, 0, 0, 1, 1, 1, 1]);
    assert_eq!(Rect::new(-5, 2, 10, 1).clipped_bounds(4, 4), Some((0, 2, 4, 3)));
    assert_eq!(Rect::new(5, 5, 1, 1).clipped_bounds(4, 4), None);
}

#[test]
fn pixels_read_from_slices_and_raster_bytes_share_storage() {
    assert_eq!(Pixel::from_slice(&[1, 2, 3, 4]), Pixel::rgba(1, 2, 3, 4));
    assert_eq!(Pixel::transparent(), Pixel::rgba(0, 0, 0, 0));
    let bytes = RasterBytes::new(vec![1, 2, 3]);
    let shared = bytes.clone();
    assert!(bytes.shares_storage_with(&shared));
    assert_eq!(shared.to_vec(), vec![1, 2, 3]);
    assert!(!bytes.shares_storage_with(&RasterBytes::new(vec![1, 2, 3])));
    assert_eq!(RasterBytes::zeroed(2).as_slice(), &[0, 0]);
}

#[test]
fn semantic_usage_is_checked_against_every_limit() {
    let small = SemanticUsage { text_bytes: 1, vector_paths: 2, path_commands: 3, memory_bytes: 4 };
    let sum = small.checked_add(small).unwrap();
    assert_eq!(sum.path_commands, 6);
    assert_eq!(sum.checked_sub(small).unwrap(), small);
    assert!(matches!(small.checked_sub(sum), Err(CoreError::MalformedProject(_))));
    let overflow = SemanticUsage { text_bytes: usize::MAX, ..small };
    assert!(matches!(
        overflow.checked_add(small),
        Err(CoreError::DocumentLimitExceeded("text complexity"))
    ));
    let many_paths = SemanticUsage { vector_paths: 4_097, ..SemanticUsage::default() };
    assert!(matches!(
        admit_semantic_replacement(SemanticUsage::default(), SemanticUsage::default(), many_paths),
        Err(CoreError::DocumentLimitExceeded("vector path count"))
    ));
    assert_eq!(
        admit_semantic_replacement(sum, small, small).unwrap(),
        sum
    );
}

#[test]
fn flips_mirror_pixels_and_undo_themselves() {
    // 3 x 2 image whose pixels are numbered 0..6 in every channel.
    let image: Vec<u8> = (0u8..6).flat_map(|p| [p, p, p, 100 + p]).collect();
    let pixel = |bytes: &[u8], index: usize| bytes[index * 4];
    let horizontal = flip_pixels(&image, 3, 2, true, false).unwrap();
    assert_eq!(
        (0..6).map(|i| pixel(&horizontal, i)).collect::<Vec<_>>(),
        vec![2, 1, 0, 5, 4, 3]
    );
    assert_eq!(horizontal[3], 102);
    let vertical = flip_pixels(&image, 3, 2, false, true).unwrap();
    assert_eq!(
        (0..6).map(|i| pixel(&vertical, i)).collect::<Vec<_>>(),
        vec![3, 4, 5, 0, 1, 2]
    );
    let both = flip_pixels(&image, 3, 2, true, true).unwrap();
    assert_eq!(
        (0..6).map(|i| pixel(&both, i)).collect::<Vec<_>>(),
        vec![5, 4, 3, 2, 1, 0]
    );
    assert_eq!(flip_pixels(&both, 3, 2, true, true).unwrap(), image);
    assert!(matches!(
        flip_pixels(&image, 3, 2, false, false),
        Err(CoreError::InvalidTransform)
    ));
}

#[test]
fn semantic_memory_admission_accepts_exact_limit_and_rejects_one_over() {
    let exact = SemanticUsage {
        memory_bytes: MAX_SEMANTIC_MEMORY_BYTES,
        ..SemanticUsage::default()
    };
    assert_eq!(
        admit_semantic_replacement(SemanticUsage::default(), SemanticUsage::default(), exact,)
            .unwrap(),
        exact
    );
    let over = SemanticUsage {
        memory_bytes: MAX_SEMANTIC_MEMORY_BYTES + 1,
        ..SemanticUsage::default()
    };
    assert!(matches!(
        admit_semantic_replacement(SemanticUsage::default(), SemanticUsage::default(), over,),
        Err(CoreError::DocumentLimitExceeded("semantic memory bytes"))
    ));
}

#[test]
fn defaults_are_the_transparent_pixel_and_the_first_frame() {
    assert_eq!(Pixel::default(), Pixel::rgba(0, 0, 0, 0));
    assert_eq!(Pixel::default(), Pixel::transparent());
    assert_eq!(FrameId::default().get(), 0);
    assert_eq!(FrameId::default(), FrameId::new(0));
}

#[test]
fn raster_bytes_from_a_vector_holds_its_bytes() {
    let bytes = vec![1_u8, 2, 3, 4];
    let from: RasterBytes = RasterBytes::from(bytes.clone());
    assert_eq!(from.as_slice(), bytes.as_slice());
    assert_eq!(from, RasterBytes::new(bytes.clone()));
    let into: RasterBytes = bytes.clone().into();
    assert_eq!(into.to_vec(), bytes);
}

fn five_by_one() -> Vec<u8> {
    let mut pixels = Vec::new();
    for x in 0..5 {
        if x == 2 {
            pixels.extend_from_slice(&[220, 30, 60, 255]);
        } else {
            pixels.extend_from_slice(&[80, 120, 160, 255]);
        }
    }
    pixels
}

#[test]
fn integer_filters_preserve_pixels_outside_selection() {
    for filter in [
        IntegerFilter::Invert,
        IntegerFilter::Posterize { levels: 3 },
        IntegerFilter::BoxBlur { radius: 2 },
    ] {
        let mut selection = Selection::new(5, 1).unwrap();
        selection.apply_rect(Rect::new(2, 0, 1, 1), SelectionMode::Replace);
        let original = five_by_one();
        let mut pixels = original.clone();
        apply_filter(&mut pixels, &selection, filter).unwrap();
        assert_eq!(&pixels[..8], &original[..8]);
        assert_eq!(&pixels[12..], &original[12..]);
    }
}

#[test]
fn apply_filter_without_selection_filters_everything() {
    let selection = Selection::new(5, 1).unwrap();
    let mut pixels = five_by_one();
    apply_filter(&mut pixels, &selection, IntegerFilter::Invert).unwrap();
    assert_eq!(&pixels[..4], &[175, 135, 95, 255]);
    assert_eq!(&pixels[8..12], &[35, 225, 195, 255]);
}

#[test]
fn apply_filter_refuses_bad_parameters_and_keeps_pixels() {
    let selection = Selection::new(5, 1).unwrap();
    for filter in [IntegerFilter::Posterize { levels: 1 }, IntegerFilter::BoxBlur { radius: 0 }] {
        let mut pixels = five_by_one();
        assert!(matches!(
            apply_filter(&mut pixels, &selection, filter),
            Err(CoreError::InvalidFilterParameter)
        ));
        assert_eq!(pixels, five_by_one());
    }
}
