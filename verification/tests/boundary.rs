use seamingly_epic::boundary::{boundary_tasks, BoundaryTask};
use seamingly_epic::config::{GridSpec, SeamSpec};
use seamingly_epic::layout::Layout;
use seamingly_epic::report::Orientation;

#[test]
fn explicit_lines_give_forty_tiles_and_sixty_seven_segments() {
    let layout = Layout::resolve(
        10_000,
        8192,
        &SeamSpec {
            x: vec![222, 3333, 7755, 8842],
            y: vec![123, 1234, 2222, 4444, 5555, 6666, 7777],
            grid: None,
        },
    )
    .unwrap();
    assert_eq!(layout.tile_count(), 40);
    let tasks = boundary_tasks(&layout);
    assert_eq!(tasks.len(), 67);
    let vertical = tasks
        .iter()
        .filter(|task| task.orientation == Orientation::Vertical)
        .count();
    assert_eq!(vertical, 32);
    assert_eq!(
        tasks[0],
        BoundaryTask {
            orientation: Orientation::Vertical,
            coordinate: 222,
            segment: 0,
            start: 0,
            end: 123,
            tile_a: 0,
            tile_b: 1,
        }
    );
    assert_eq!(
        tasks[66],
        BoundaryTask {
            orientation: Orientation::Horizontal,
            coordinate: 7777,
            segment: 4,
            start: 8842,
            end: 10_000,
            tile_a: 34,
            tile_b: 39,
        }
    );
}

#[test]
fn every_task_joins_two_neighbouring_tiles() {
    let layout = Layout::resolve(
        1200,
        800,
        &SeamSpec {
            grid: Some(GridSpec {
                columns: 3,
                rows: 4,
            }),
            ..SeamSpec::default()
        },
    )
    .unwrap();
    let tasks = boundary_tasks(&layout);
    assert_eq!(tasks.len(), 2 * 4 + 3 * 3);
    let x_edges = layout.x_edges();
    let y_edges = layout.y_edges();
    for task in &tasks {
        match task.orientation {
            Orientation::Vertical => {
                assert_eq!(task.tile_b, task.tile_a + 1);
                assert_eq!(task.start, y_edges[task.segment]);
                assert_eq!(task.end, y_edges[task.segment + 1]);
                for y in [task.start, task.end - 1] {
                    assert_eq!(layout.tile_at(task.coordinate - 1, y), task.tile_a);
                    assert_eq!(layout.tile_at(task.coordinate, y), task.tile_b);
                }
            }
            Orientation::Horizontal => {
                assert_eq!(task.tile_b, task.tile_a + layout.columns());
                assert_eq!(task.start, x_edges[task.segment]);
                assert_eq!(task.end, x_edges[task.segment + 1]);
                for x in [task.start, task.end - 1] {
                    assert_eq!(layout.tile_at(x, task.coordinate - 1), task.tile_a);
                    assert_eq!(layout.tile_at(x, task.coordinate), task.tile_b);
                }
            }
        }
    }
}

#[test]
fn a_single_seam_has_one_segment_per_tile_row() {
    let layout = Layout::resolve(
        100,
        60,
        &SeamSpec {
            x: vec![40],
            ..SeamSpec::default()
        },
    )
    .unwrap();
    let tasks = boundary_tasks(&layout);
    assert_eq!(
        tasks,
        vec![BoundaryTask {
            orientation: Orientation::Vertical,
            coordinate: 40,
            segment: 0,
            start: 0,
            end: 60,
            tile_a: 0,
            tile_b: 1,
        }]
    );
}
