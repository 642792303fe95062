use seamingly_epic::config::{GridSpec, SeamSpec};
use seamingly_epic::layout::{equal_boundaries, Layout, LayoutError};

#[test]
fn resolves_two_by_two_pid_layout() {
    let layout = Layout::resolve(
        8192,
        8192,
        &SeamSpec {
            grid: Some(GridSpec {
                columns: 2,
                rows: 2,
            }),
            ..SeamSpec::default()
        },
    )
    .unwrap();
    assert_eq!(layout.x_seams, [4096]);
    assert_eq!(layout.y_seams, [4096]);
    assert_eq!(layout.tile_count(), 4);
    assert_eq!(layout.tile_at(4095, 4095), 0);
    assert_eq!(layout.tile_at(4096, 4095), 1);
    assert_eq!(layout.tile_at(4095, 4096), 2);
    assert_eq!(layout.tile_at(4096, 4096), 3);
}

#[test]
fn supports_one_by_two_and_five_by_five() {
    let vertical = Layout::resolve(
        1000,
        2000,
        &SeamSpec {
            grid: Some(GridSpec {
                columns: 1,
                rows: 2,
            }),
            ..SeamSpec::default()
        },
    )
    .unwrap();
    assert!(vertical.x_seams.is_empty());
    assert_eq!(vertical.y_seams, [1000]);

    let five = Layout::resolve(
        1000,
        1000,
        &SeamSpec {
            grid: Some(GridSpec {
                columns: 5,
                rows: 5,
            }),
            ..SeamSpec::default()
        },
    )
    .unwrap();
    assert_eq!(five.x_seams, [200, 400, 600, 800]);
    assert_eq!(five.y_seams, [200, 400, 600, 800]);
    assert_eq!(five.tile_count(), 25);
}

#[test]
fn derives_a_three_by_two_grid_from_explicit_lines() {
    let layout = Layout::resolve(
        9000,
        8192,
        &SeamSpec {
            x: vec![3084, 5887],
            y: vec![4096],
            grid: None,
        },
    )
    .unwrap();
    assert_eq!(layout.columns(), 3);
    assert_eq!(layout.rows(), 2);
    assert_eq!(layout.tile_count(), 6);
    assert_eq!(layout.x_edges(), [0, 3084, 5887, 9000]);
    assert_eq!(layout.y_edges(), [0, 4096, 8192]);
}

#[test]
fn explicit_seams_are_sorted_and_deduplicated() {
    let layout = Layout::resolve(
        1000,
        800,
        &SeamSpec {
            x: vec![700, 300, 700, 500],
            y: vec![],
            grid: None,
        },
    )
    .unwrap();
    assert_eq!(layout.x_seams, [300, 500, 700]);
    assert!(layout.y_seams.is_empty());
    assert_eq!(layout.tile_count(), 4);
}

#[test]
fn explicit_seams_replace_only_their_own_grid_axis() {
    let layout = Layout::resolve(
        1000,
        900,
        &SeamSpec {
            x: vec![123],
            y: vec![],
            grid: Some(GridSpec {
                columns: 4,
                rows: 3,
            }),
        },
    )
    .unwrap();
    assert_eq!(layout.x_seams, [123]);
    assert_eq!(layout.y_seams, [300, 600]);
}

#[test]
fn equal_grid_boundaries_round_to_the_nearest_pixel() {
    let layout = Layout::resolve(
        10,
        7,
        &SeamSpec {
            grid: Some(GridSpec {
                columns: 3,
                rows: 2,
            }),
            ..SeamSpec::default()
        },
    )
    .unwrap();
    // 10/3 = 3.33 and 20/3 = 6.67; 7/2 = 3.5 rounds up.
    assert_eq!(layout.x_seams, [3, 7]);
    assert_eq!(layout.y_seams, [4]);
}

#[test]
fn refuses_images_smaller_than_four_pixels() {
    let error = Layout::resolve(3, 100, &SeamSpec::default()).unwrap_err();
    assert_eq!(error, LayoutError::TooSmall);
    assert_eq!(error.message(), "image must be at least 4x4 pixels");
}

#[test]
fn refuses_empty_and_overdense_grids() {
    let empty = SeamSpec {
        grid: Some(GridSpec {
            columns: 0,
            rows: 2,
        }),
        ..SeamSpec::default()
    };
    assert_eq!(Layout::resolve(100, 100, &empty).unwrap_err(), LayoutError::EmptyGrid);
    let dense = SeamSpec {
        grid: Some(GridSpec {
            columns: 2,
            rows: 101,
        }),
        ..SeamSpec::default()
    };
    assert_eq!(Layout::resolve(100, 100, &dense).unwrap_err(), LayoutError::GridTooDense);
}

#[test]
fn refuses_seams_too_close_to_an_edge() {
    let left = SeamSpec {
        x: vec![1],
        y: vec![],
        grid: None,
    };
    assert_eq!(Layout::resolve(100, 100, &left).unwrap_err(), LayoutError::XSeamOutOfRange);
    let right = SeamSpec {
        x: vec![50],
        y: vec![99],
        grid: None,
    };
    assert_eq!(Layout::resolve(100, 100, &right).unwrap_err(), LayoutError::YSeamOutOfRange);
    let edge = SeamSpec {
        x: vec![2, 98],
        y: vec![],
        grid: None,
    };
    assert_eq!(Layout::resolve(100, 100, &edge).unwrap().x_seams, [2, 98]);
    let beyond = SeamSpec {
        x: vec![99],
        y: vec![],
        grid: None,
    };
    assert_eq!(Layout::resolve(100, 100, &beyond).unwrap_err(), LayoutError::XSeamOutOfRange);
}

#[test]
fn refuses_a_layout_without_seams() {
    let error = Layout::resolve(100, 100, &SeamSpec::default()).unwrap_err();
    assert_eq!(error, LayoutError::NoSeams);
    let smallest = SeamSpec {
        grid: Some(GridSpec::default()),
        ..SeamSpec::default()
    };
    let layout = Layout::resolve(4, 4, &smallest).unwrap();
    assert_eq!((layout.x_seams, layout.y_seams), (vec![2], vec![2]));
    let crowded = SeamSpec {
        grid: Some(GridSpec {
            columns: 4,
            rows: 1,
        }),
        ..SeamSpec::default()
    };
    // Boundaries 1, 3 and 4 of a five-pixel width: the first is too close.
    assert_eq!(Layout::resolve(5, 5, &crowded).unwrap_err(), LayoutError::XSeamOutOfRange);
}

#[test]
fn tile_at_agrees_with_the_edges() {
    let layout = Layout::resolve(
        9000,
        8192,
        &SeamSpec {
            x: vec![3084, 5887],
            y: vec![4096],
            grid: None,
        },
    )
    .unwrap();
    let x_edges = layout.x_edges();
    let y_edges = layout.y_edges();
    for row in 0..layout.rows() {
        for column in 0..layout.columns() {
            let expected = layout.tile_index(column, row);
            for x in [x_edges[column], x_edges[column + 1] - 1] {
                for y in [y_edges[row], y_edges[row + 1] - 1] {
                    assert_eq!(layout.tile_at(x, y), expected);
                }
            }
        }
    }
    assert_eq!(layout.tile_index(2, 1), 5);
}

#[test]
fn resolving_a_layout_again_gives_the_same_seams() {
    let first = Layout::resolve(
        2000,
        1500,
        &SeamSpec {
            grid: Some(GridSpec {
                columns: 3,
                rows: 4,
            }),
            ..SeamSpec::default()
        },
    )
    .unwrap();
    let again = Layout::resolve(
        2000,
        1500,
        &SeamSpec {
            x: first.x_seams.clone(),
            y: first.y_seams.clone(),
            grid: None,
        },
    )
    .unwrap();
    assert_eq!(first, again);
}

#[test]
fn cells_count_the_seams_at_or_before_a_pixel() {
    let layout = Layout::resolve(
        9000,
        8192,
        &SeamSpec {
            x: vec![3084, 5887],
            y: vec![4096],
            grid: None,
        },
    )
    .unwrap();
    assert_eq!(layout.cell_at(0, 0), (0, 0));
    assert_eq!(layout.cell_at(3083, 4095), (0, 0));
    assert_eq!(layout.cell_at(3084, 4096), (1, 1));
    assert_eq!(layout.cell_at(8999, 8191), (2, 1));
    let (column, row) = layout.cell_at(6000, 10);
    assert_eq!(layout.tile_index(column, row), layout.tile_at(6000, 10));
}

#[test]
fn equal_boundaries_round_even_with_more_cells_than_pixels() {
    assert_eq!(equal_boundaries(2, 5), vec![0, 1, 1, 2]);
    assert_eq!(equal_boundaries(8192, 2), vec![4096]);
    assert_eq!(equal_boundaries(10, 1), Vec::<u32>::new());
    assert_eq!(equal_boundaries(10, 0), Vec::<u32>::new());
    assert_eq!(equal_boundaries(u32::MAX, 3), vec![1_431_655_765, 2_863_311_530]);
}
