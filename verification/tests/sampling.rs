use seamingly_epic::config::{GridSpec, SeamSpec};
use seamingly_epic::layout::Layout;
use seamingly_epic::sampling::{
    adjacent_seams, blend_ramps_overlap, expected_sample_count, minimum_band_samples,
    profile_index, refine_search_range, sample_bands, sample_positions, scan_band_radius,
    seam_offset, tile_position, validate_sampling, SamplingError,
};

fn grid(width: u32, height: u32, columns: u32, rows: u32) -> Layout {
    Layout::resolve(
        width,
        height,
        &SeamSpec {
            grid: Some(GridSpec { columns, rows }),
            ..SeamSpec::default()
        },
    )
    .unwrap()
}

#[test]
fn sampling_settings_are_checked_in_order() {
    assert_eq!(validate_sampling(0, 0), Err(SamplingError::ZeroScanRadius));
    assert_eq!(validate_sampling(0, 4), Err(SamplingError::ZeroScanRadius));
    assert_eq!(validate_sampling(24, 0), Err(SamplingError::ZeroSampleStride));
    assert_eq!(validate_sampling(24, 1), Ok(()));
    assert_eq!(
        SamplingError::ZeroSampleStride.message(),
        "sample stride must be at least one pixel"
    );
}

#[test]
fn sample_count_rounds_up_and_is_zero_for_empty_segments() {
    assert_eq!(expected_sample_count(0, 100, 1), 100);
    assert_eq!(expected_sample_count(0, 100, 3), 34);
    assert_eq!(expected_sample_count(10, 20, 5), 2);
    assert_eq!(expected_sample_count(10, 21, 5), 3);
    assert_eq!(expected_sample_count(20, 10, 5), 0);
    assert_eq!(expected_sample_count(7, 7, 1), 0);
}

#[test]
fn sample_positions_step_from_the_start() {
    assert_eq!(sample_positions(10, 21, 5), vec![10, 15, 20]);
    assert_eq!(sample_positions(0, 4, 1), vec![0, 1, 2, 3]);
    assert!(sample_positions(9, 3, 2).is_empty());
    for (start, end, stride) in [(0, 100, 3), (5, 5, 1), (1, 1000, 7), (3, 4, 9)] {
        assert_eq!(
            sample_positions(start, end, stride).len(),
            expected_sample_count(start, end, stride)
        );
    }
}

#[test]
fn refined_search_stays_two_pixels_inside() {
    assert_eq!(refine_search_range(500, 0, 1000), (500, 500));
    assert_eq!(refine_search_range(500, 6, 1000), (494, 506));
    assert_eq!(refine_search_range(3, 6, 1000), (2, 9));
    assert_eq!(refine_search_range(997, 6, 1000), (991, 998));
    assert_eq!(refine_search_range(u32::MAX - 1, 5, u32::MAX), (u32::MAX - 6, u32::MAX - 2));
    assert_eq!(refine_search_range(1, 1, 1), (2, 0));
}

#[test]
fn band_radius_leaves_room_for_four_bands() {
    assert_eq!(scan_band_radius(24, 500, 1000), 24);
    assert_eq!(scan_band_radius(24, 30, 1000), 15);
    assert_eq!(scan_band_radius(24, 990, 1000), 5);
    assert_eq!(scan_band_radius(24, 1000, 1000), 0);
    assert_eq!(scan_band_radius(24, 1200, 1000), 0);
    let radius = scan_band_radius(24, 30, 1000);
    let bands = sample_bands(30, radius);
    assert_eq!(bands, [(0, 15), (15, 30), (30, 45), (45, 60)]);
    assert_eq!(sample_bands(100, 8), [(84, 92), (92, 100), (100, 108), (108, 116)]);
}

#[test]
fn a_band_needs_half_of_its_pixels() {
    assert_eq!(minimum_band_samples(0), 0);
    assert_eq!(minimum_band_samples(1), 1);
    assert_eq!(minimum_band_samples(24), 12);
    assert_eq!(minimum_band_samples(25), 13);
}

#[test]
fn profile_positions_are_clamped_to_the_segment() {
    assert_eq!(profile_index(50, 40, 80), 10);
    assert_eq!(profile_index(10, 40, 80), 0);
    assert_eq!(profile_index(200, 40, 80), 39);
    assert_eq!(profile_index(79, 40, 80), 39);
}

#[test]
fn seam_offsets_know_their_side() {
    assert_eq!(seam_offset(95, 100), (5, true));
    assert_eq!(seam_offset(100, 100), (0, false));
    assert_eq!(seam_offset(107, 100), (7, false));
}

#[test]
fn a_tile_is_bounded_by_the_seams_next_to_it() {
    assert_eq!(adjacent_seams(0, 2), (None, Some(0)));
    assert_eq!(adjacent_seams(1, 2), (Some(0), Some(1)));
    assert_eq!(adjacent_seams(2, 2), (Some(1), None));
    assert_eq!(adjacent_seams(0, 0), (None, None));
    assert_eq!(adjacent_seams(5, 2), (None, None));
}

#[test]
fn tile_positions_invert_tile_indices() {
    let layout = grid(1200, 800, 3, 4);
    for row in 0..layout.rows() {
        for column in 0..layout.columns() {
            let tile = layout.tile_index(column, row);
            assert_eq!(tile_position(tile, layout.columns()), (row, column));
        }
    }
    assert_eq!(tile_position(7, 3), (2, 1));
}

#[test]
fn blend_ramps_overlap_only_past_half_a_tile() {
    let layout = grid(1000, 1000, 5, 5);
    assert!(!blend_ramps_overlap(&layout, 0));
    assert!(!blend_ramps_overlap(&layout, 100));
    assert!(blend_ramps_overlap(&layout, 101));
    assert!(blend_ramps_overlap(&layout, u32::MAX));
    let wide = grid(1000, 1000, 2, 1);
    assert!(!blend_ramps_overlap(&wide, 250));
    assert!(blend_ramps_overlap(&wide, 251));
}

#[test]
fn the_seams_next_to_a_pixel_straddle_it() {
    let layout = grid(1000, 1000, 5, 5);
    for x in [0, 199, 200, 201, 555, 799, 800, 999] {
        let (column, _) = layout.cell_at(x, 0);
        let (before, after) = adjacent_seams(column, layout.x_seams.len());
        if let Some(seam) = before {
            assert!(layout.x_seams[seam] <= x);
        }
        if let Some(seam) = after {
            assert!(x < layout.x_seams[seam]);
        }
        assert_eq!(before.is_some(), x >= 200);
        assert_eq!(after.is_some(), x < 800);
    }
}
