use seamingly_epic::cross::{
    boundary_ranges, center_geometry, landscape_geometry, match_search_bounds, portrait_geometry,
    radial_search_bounds, CenterError, CrossError, SearchError, SearchReference, Side,
};

#[test]
fn cross_geometry_is_centered_without_resampling() {
    let landscape = landscape_geometry(8192, 8192, 4096, (8192, 4096)).unwrap();
    let portrait = portrait_geometry(8192, 8192, 4096, (4096, 8192)).unwrap();
    assert_eq!((landscape.origin_x, landscape.origin_y), (0, 2048));
    assert_eq!((portrait.origin_x, portrait.origin_y), (2048, 0));
    assert!(landscape_geometry(8192, 8192, 4096, (4096, 4096)).is_err());
    assert!(portrait_geometry(8192, 8192, 4096, (4096, 4096)).is_err());
}

#[test]
fn standard_cross_restores_the_unrestricted_structural_search() {
    let (minimum, maximum, step) = match_search_bounds(2048).unwrap();
    assert_eq!((minimum, maximum, step), (512, 2015, 2));
    assert!(maximum > 7 * 2048 / 8);
}

#[test]
fn boundary_bands_keep_the_outer_base_and_inner_reference_distinct() {
    assert_eq!(
        boundary_ranges(100, Side::Negative, 8).unwrap(),
        [(84, 92), (92, 100), (100, 108), (108, 116)]
    );
    assert_eq!(
        boundary_ranges(100, Side::Positive, 8).unwrap(),
        [(108, 116), (100, 108), (92, 100), (84, 92)]
    );
}

#[test]
fn standard_center_is_registered_around_the_requested_point() {
    let geometry = center_geometry(8192, 8192, 4096, 4096, (4096, 4096)).unwrap();
    assert_eq!((geometry.origin_x, geometry.origin_y), (2048, 2048));
    // The symmetric pixel-space center lies half a pixel before the seam intersection.
    assert_eq!(
        (
            f64::from(geometry.center_x) - 0.5,
            f64::from(geometry.center_y) - 0.5
        ),
        (4095.5, 4095.5)
    );
}

#[test]
fn standard_center_has_an_unrestricted_radial_search() {
    let (minimum, maximum, step) = radial_search_bounds(2048).unwrap();
    assert_eq!((minimum, maximum, step), (512, 2015, 2));
    assert_eq!(radial_search_bounds(32).unwrap(), (8, 14, 1));
}

#[test]
fn cross_references_are_refused_rather_than_guessed() {
    assert_eq!(
        landscape_geometry(8192, 8192, 4096, (4096, 4096)).unwrap_err(),
        CrossError::XcrossWidth {
            expected: 8192,
            received: 4096
        }
    );
    assert_eq!(
        landscape_geometry(8192, 8192, 4096, (8192, 31)).unwrap_err(),
        CrossError::XcrossHeight
    );
    assert_eq!(
        landscape_geometry(8192, 8192, 4096, (8192, 4097)).unwrap_err(),
        CrossError::XcrossHeight
    );
    assert_eq!(
        landscape_geometry(8192, 8192, 1000, (8192, 4096)).unwrap_err(),
        CrossError::XcrossAbove
    );
    assert_eq!(
        landscape_geometry(8192, 8192, 7000, (8192, 4096)).unwrap_err(),
        CrossError::XcrossBelow
    );
    assert_eq!(
        portrait_geometry(8192, 8192, 4096, (4096, 4096)).unwrap_err(),
        CrossError::YcrossHeight {
            expected: 8192,
            received: 4096
        }
    );
    assert_eq!(
        portrait_geometry(8192, 8192, 4096, (30, 8192)).unwrap_err(),
        CrossError::YcrossWidth
    );
    assert_eq!(
        portrait_geometry(8192, 8192, 100, (4096, 8192)).unwrap_err(),
        CrossError::YcrossLeft
    );
    assert_eq!(
        portrait_geometry(8192, 8192, 8000, (4096, 8192)).unwrap_err(),
        CrossError::YcrossRight
    );
}

#[test]
fn center_references_are_refused_rather_than_guessed() {
    assert_eq!(
        center_geometry(8192, 8192, 4096, 4096, (4096, 2048)).unwrap_err(),
        CenterError::NotSquare {
            width: 4096,
            height: 2048
        }
    );
    assert_eq!(
        center_geometry(8192, 8192, 4096, 4096, (62, 62)).unwrap_err(),
        CenterError::TooSmall
    );
    assert_eq!(
        center_geometry(8192, 8192, 0, 4096, (64, 64)).unwrap_err(),
        CenterError::CenterOutside
    );
    assert_eq!(
        center_geometry(8192, 8192, 10, 4096, (64, 64)).unwrap_err(),
        CenterError::ExtendsLeft
    );
    assert_eq!(
        center_geometry(8192, 8192, 4096, 10, (64, 64)).unwrap_err(),
        CenterError::ExtendsAbove
    );
    assert_eq!(
        center_geometry(8192, 8192, 8180, 4096, (64, 64)).unwrap_err(),
        CenterError::ExtendsRight
    );
    assert_eq!(
        center_geometry(8192, 8192, 4096, 8180, (64, 64)).unwrap_err(),
        CenterError::ExtendsBelow
    );
}

#[test]
fn narrow_references_have_no_search_range() {
    assert_eq!(match_search_bounds(4), Err(SearchError::TooNarrow));
    assert_eq!(match_search_bounds(13), Err(SearchError::Empty));
    assert_eq!(match_search_bounds(14), Ok((8, 9, 1)));
    assert_eq!(radial_search_bounds(17), Err(SearchError::TooNarrow));
    assert_eq!(radial_search_bounds(18), Err(SearchError::Empty));
    assert_eq!(radial_search_bounds(20), Ok((1, 2, 1)));
    assert_eq!(boundary_ranges(10, Side::Negative, 8), None);
    assert_eq!(boundary_ranges(u32::MAX - 4, Side::Positive, 8), None);
}

#[test]
fn refusals_explain_themselves() {
    assert_eq!(
        CrossError::XcrossWidth {
            expected: 8192,
            received: 4096
        }
        .message(),
        "--xcross must span the base width exactly (8192px); received 4096px"
    );
    assert_eq!(
        CrossError::YcrossRight.message(),
        "--ycross cannot be centered on --x without extending right of the base"
    );
    assert_eq!(
        CenterError::NotSquare {
            width: 4096,
            height: 2048
        }
        .message(),
        "--center must be square; received 4096x2048"
    );
    assert_eq!(
        CenterError::ExtendsBelow.message(),
        "--center cannot be centered on --y without extending below the base"
    );
    assert_eq!(
        SearchError::Empty.message(SearchReference::Cross),
        "cross-reference stitch search is empty"
    );
    assert_eq!(
        SearchError::TooNarrow.message(SearchReference::Center),
        "center-reference half-span is too narrow for radial analysis"
    );
}

#[test]
fn references_near_the_coordinate_limit_are_refused() {
    assert_eq!(
        landscape_geometry(64, u32::MAX, u32::MAX - 2, (64, 64)).unwrap_err(),
        CrossError::XcrossBelow
    );
    assert_eq!(
        portrait_geometry(u32::MAX, 64, u32::MAX - 2, (64, 64)).unwrap_err(),
        CrossError::YcrossRight
    );
    assert_eq!(
        center_geometry(u32::MAX, u32::MAX, u32::MAX - 2, 100, (64, 64)).unwrap_err(),
        CenterError::ExtendsRight
    );
}
