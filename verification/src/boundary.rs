//! The shared tile boundaries of a layout and the pixel ranges sampled
//! across each of them.

use vstd::prelude::*;

use crate::layout::{lemma_edges_increasing, lemma_edges_partition_columns, lemma_edges_partition_rows, Layout};
use crate::report::Orientation;
use crate::seams::strictly_increasing;

verus! {

/// One straight segment of a seam line shared by exactly two tiles.
#[derive(Clone, Copy, Debug, PartialEq, Eq, Structural)]
pub struct BoundaryTask {
    pub orientation: Orientation,
    /// The seam line's coordinate: the first pixel of the right or bottom tile.
    pub coordinate: u32,
    /// The row (vertical seams) or column (horizontal seams) of the segment.
    pub segment: usize,
    /// First position along the seam covered by the segment.
    pub start: u32,
    /// One past the last position along the seam covered by the segment.
    pub end: u32,
    /// The left or top tile.
    pub tile_a: usize,
    /// The right or bottom tile.
    pub tile_b: usize,
}

/// The segment of vertical seam `seam` that crosses tile row `row`.
pub open spec fn vertical_task(layout: Layout, seam: int, row: int) -> BoundaryTask {
    BoundaryTask {
        orientation: Orientation::Vertical,
        coordinate: layout.x_seams@[seam],
        segment: row as usize,
        start: layout.spec_y_edges()[row],
        end: layout.spec_y_edges()[row + 1],
        tile_a: layout.spec_tile_index(seam, row) as usize,
        tile_b: layout.spec_tile_index(seam + 1, row) as usize,
    }
}

/// The segment of horizontal seam `seam` that crosses tile column `column`.
pub open spec fn horizontal_task(layout: Layout, seam: int, column: int) -> BoundaryTask {
    BoundaryTask {
        orientation: Orientation::Horizontal,
        coordinate: layout.y_seams@[seam],
        segment: column as usize,
        start: layout.spec_x_edges()[column],
        end: layout.spec_x_edges()[column + 1],
        tile_a: layout.spec_tile_index(column, seam) as usize,
        tile_b: layout.spec_tile_index(column, seam + 1) as usize,
    }
}

/// Number of vertical segments: every vertical seam crosses every row.
pub open spec fn vertical_task_count(layout: Layout) -> int {
    layout.x_seams@.len() * layout.spec_rows()
}

/// Number of segments: vertical seams times rows plus horizontal seams
/// times columns.
pub open spec fn task_count(layout: Layout) -> int {
    vertical_task_count(layout) + layout.y_seams@.len() * layout.spec_columns()
}

proof fn lemma_row_major_below(a: int, b: int, c: int, rows: int)
    requires
        0 <= a < c,
        0 <= b < rows,
    ensures
        a * rows + b < c * rows,
        0 <= a * rows + b,
{
    assert(a * rows + b < c * rows) by (nonlinear_arith)
        requires
            0 <= a < c,
            0 <= b < rows,
    ;
    assert(0 <= a * rows + b) by (nonlinear_arith)
        requires
            0 <= a,
            0 <= b,
            rows >= 0,
    ;
}

/// Every segment of every seam, vertical seams first (seam by seam, row by
/// row), then horizontal seams (seam by seam, column by column).
pub fn boundary_tasks(layout: &Layout) -> (tasks: Vec<BoundaryTask>)
    requires
        layout.wf(),
        layout.counts_fit(),
        task_count(*layout) <= usize::MAX,
    ensures
        tasks@.len() == task_count(*layout),
        forall|seam: int, row: int|
            0 <= seam < layout.x_seams@.len() && 0 <= row < layout.spec_rows() ==> #[trigger] tasks@[seam
                * layout.spec_rows() + row] == vertical_task(*layout, seam, row),
        forall|seam: int, column: int|
            0 <= seam < layout.y_seams@.len() && 0 <= column < layout.spec_columns() ==> #[trigger] tasks@[vertical_task_count(*layout)
                + seam * layout.spec_columns() + column] == horizontal_task(*layout, seam, column),
{
    proof {
        layout.lemma_counts_bounded();
    }
    let columns = layout.columns();
    let rows = layout.rows();
    let x_edges = layout.x_edges();
    let y_edges = layout.y_edges();
    let ghost x_len = layout.x_seams@.len() as int;
    let ghost y_len = layout.y_seams@.len() as int;
    let mut tasks: Vec<BoundaryTask> = Vec::new();
    let mut seam: usize = 0;
    while seam < layout.x_seams.len()
        invariant
            layout.wf(),
            layout.counts_fit(),
            columns == layout.spec_columns(),
            rows == layout.spec_rows(),
            y_edges@ == layout.spec_y_edges(),
            seam <= x_len,
            x_len == layout.x_seams@.len(),
            tasks@.len() == seam * rows,
            forall|s: int, r: int|
                0 <= s < seam && 0 <= r < rows ==> #[trigger] tasks@[s * rows + r] == vertical_task(
                    *layout,
                    s,
                    r,
                ),
        decreases x_len - seam,
    {
        let mut row: usize = 0;
        while row < rows
            invariant
                layout.wf(),
                layout.counts_fit(),
                columns == layout.spec_columns(),
                rows == layout.spec_rows(),
                y_edges@ == layout.spec_y_edges(),
                seam < x_len,
                x_len == layout.x_seams@.len(),
                row <= rows,
                tasks@.len() == seam * rows + row,
                forall|s: int, r: int|
                    0 <= s < seam && 0 <= r < rows ==> #[trigger] tasks@[s * rows + r]
                        == vertical_task(*layout, s, r),
                forall|r: int| 0 <= r < row ==> #[trigger] tasks@[seam * rows + r] == vertical_task(*layout, seam as int, r),
            decreases rows - row,
        {
            proof {
                layout.lemma_tile_index_in_range(seam as int, row as int);
                layout.lemma_tile_index_in_range(seam + 1, row as int);
                lemma_row_major_below(seam as int, row as int, x_len + 1, rows as int);
            }
            let task = BoundaryTask {
                orientation: Orientation::Vertical,
                coordinate: layout.x_seams[seam],
                segment: row,
                start: y_edges[row],
                end: y_edges[row + 1],
                tile_a: layout.tile_index(seam, row),
                tile_b: layout.tile_index(seam + 1, row),
            };
            let ghost before = tasks@;
            tasks.push(task);
            proof {
                assert forall|s: int, r: int| 0 <= s < seam && 0 <= r < rows implies #[trigger] tasks@[s
                    * rows + r] == vertical_task(*layout, s, r) by {
                    lemma_row_major_below(s, r, seam as int, rows as int);
                    assert(tasks@[s * rows + r] == before[s * rows + r]);
                }
                assert forall|r: int| 0 <= r < row + 1 implies #[trigger] tasks@[seam * rows + r]
                    == vertical_task(*layout, seam as int, r) by {
                    if r < row {
                        assert(tasks@[seam * rows + r] == before[seam * rows + r]);
                    }
                }
            }
            row = row + 1;
        }
        proof {
            assert((seam + 1) * rows == seam * rows + rows) by (nonlinear_arith);
            assert forall|s: int, r: int| 0 <= s < seam + 1 && 0 <= r < rows implies #[trigger] tasks@[s
                * rows + r] == vertical_task(*layout, s, r) by {
                if s == seam {
                    assert(tasks@[seam * rows + r] == vertical_task(*layout, seam as int, r));
                }
            }
        }
        seam = seam + 1;
    }
    let ghost vertical_count = tasks@.len() as int;
    assert(vertical_count == vertical_task_count(*layout));
    let mut seam: usize = 0;
    while seam < layout.y_seams.len()
        invariant
            layout.wf(),
            layout.counts_fit(),
            task_count(*layout) <= usize::MAX,
            columns == layout.spec_columns(),
            rows == layout.spec_rows(),
            x_edges@ == layout.spec_x_edges(),
            seam <= y_len,
            y_len == layout.y_seams@.len(),
            vertical_count == vertical_task_count(*layout),
            tasks@.len() == vertical_count + seam * columns,
            forall|s: int, r: int|
                0 <= s < x_len && 0 <= r < rows ==> #[trigger] tasks@[s * rows + r] == vertical_task(
                    *layout,
                    s,
                    r,
                ),
            x_len == layout.x_seams@.len(),
            forall|s: int, c: int|
                0 <= s < seam && 0 <= c < columns ==> #[trigger] tasks@[vertical_count + s * columns
                    + c] == horizontal_task(*layout, s, c),
        decreases y_len - seam,
    {
        let mut column: usize = 0;
        while column < columns
            invariant
                layout.wf(),
                layout.counts_fit(),
                task_count(*layout) <= usize::MAX,
                columns == layout.spec_columns(),
                rows == layout.spec_rows(),
                x_edges@ == layout.spec_x_edges(),
                seam < y_len,
                y_len == layout.y_seams@.len(),
                column <= columns,
                vertical_count == vertical_task_count(*layout),
                tasks@.len() == vertical_count + seam * columns + column,
                forall|s: int, r: int|
                    0 <= s < x_len && 0 <= r < rows ==> #[trigger] tasks@[s * rows + r]
                        == vertical_task(*layout, s, r),
                x_len == layout.x_seams@.len(),
                forall|s: int, c: int|
                    0 <= s < seam && 0 <= c < columns ==> #[trigger] tasks@[vertical_count + s
                        * columns + c] == horizontal_task(*layout, s, c),
                forall|c: int| 0 <= c < column ==> #[trigger] tasks@[vertical_count + seam * columns + c]
                    == horizontal_task(*layout, seam as int, c),
            decreases columns - column,
        {
            proof {
                layout.lemma_tile_index_in_range(column as int, seam as int);
                layout.lemma_tile_index_in_range(column as int, seam + 1);
                lemma_row_major_below(seam as int, column as int, y_len, columns as int);
            }
            let task = BoundaryTask {
                orientation: Orientation::Horizontal,
                coordinate: layout.y_seams[seam],
                segment: column,
                start: x_edges[column],
                end: x_edges[column + 1],
                tile_a: layout.tile_index(column, seam),
                tile_b: layout.tile_index(column, seam + 1),
            };
            let ghost before = tasks@;
            tasks.push(task);
            proof {
                assert forall|s: int, r: int| 0 <= s < x_len && 0 <= r < rows implies #[trigger] tasks@[s
                    * rows + r] == vertical_task(*layout, s, r) by {
                    lemma_row_major_below(s, r, x_len, rows as int);
                    assert(tasks@[s * rows + r] == before[s * rows + r]);
                }
                assert forall|s: int, c: int| 0 <= s < seam && 0 <= c < columns implies #[trigger] tasks@[vertical_count
                    + s * columns + c] == horizontal_task(*layout, s, c) by {
                    lemma_row_major_below(s, c, seam as int, columns as int);
                    assert(tasks@[vertical_count + s * columns + c] == before[vertical_count + s
                        * columns + c]);
                }
                assert forall|c: int| 0 <= c < column + 1 implies #[trigger] tasks@[vertical_count + seam
                    * columns + c] == horizontal_task(*layout, seam as int, c) by {
                    if c < column {
                        assert(tasks@[vertical_count + seam * columns + c] == before[vertical_count
                            + seam * columns + c]);
                    }
                }
            }
            column = column + 1;
        }
        proof {
            assert((seam + 1) * columns == seam * columns + columns) by (nonlinear_arith);
            assert forall|s: int, c: int| 0 <= s < seam + 1 && 0 <= c < columns implies #[trigger] tasks@[vertical_count
                + s * columns + c] == horizontal_task(*layout, s, c) by {
                if s == seam {
                    assert(tasks@[vertical_count + seam * columns + c] == horizontal_task(
                        *layout,
                        seam as int,
                        c,
                    ));
                }
            }
        }
        seam = seam + 1;
    }
    tasks
}

/// Each segment separates exactly the two tiles it names: along the whole
/// segment, the last pixel before the seam lies in the first tile and the
/// seam's own pixel in the second. No diagonal or distant pair of tiles is
/// ever compared directly.
pub proof fn lemma_vertical_task_separates_its_tiles(layout: Layout, seam: int, row: int, y: u32)
    requires
        layout.wf(),
        layout.counts_fit(),
        0 <= seam < layout.x_seams@.len(),
        0 <= row < layout.spec_rows(),
        vertical_task(layout, seam, row).start <= y < vertical_task(layout, seam, row).end,
    ensures
        layout.spec_tile_index(layout.column_of((layout.x_seams@[seam] - 1) as u32), layout.row_of(y))
            == vertical_task(layout, seam, row).tile_a,
        layout.spec_tile_index(layout.column_of(layout.x_seams@[seam]), layout.row_of(y))
            == vertical_task(layout, seam, row).tile_b,
{
    let x = layout.x_seams@[seam];
    let e = layout.spec_x_edges();
    lemma_edges_increasing(&layout);
    assert(e[seam + 1] == x);
    assert(1 < x);
    assert(e[seam] < e[seam + 1]);
    assert(e[seam + 1] < e[seam + 2]);
    lemma_edges_partition_columns(&layout, seam, (x - 1) as u32);
    lemma_edges_partition_columns(&layout, seam + 1, x);
    lemma_edges_partition_rows(&layout, row, y);
    layout.lemma_tile_index_in_range(seam, row);
    layout.lemma_tile_index_in_range(seam + 1, row);
}

/// Horizontal counterpart of `lemma_vertical_task_separates_its_tiles`.
pub proof fn lemma_horizontal_task_separates_its_tiles(layout: Layout, seam: int, column: int, x: u32)
    requires
        layout.wf(),
        layout.counts_fit(),
        0 <= seam < layout.y_seams@.len(),
        0 <= column < layout.spec_columns(),
        horizontal_task(layout, seam, column).start <= x < horizontal_task(layout, seam, column).end,
    ensures
        layout.spec_tile_index(layout.column_of(x), layout.row_of((layout.y_seams@[seam] - 1) as u32))
            == horizontal_task(layout, seam, column).tile_a,
        layout.spec_tile_index(layout.column_of(x), layout.row_of(layout.y_seams@[seam]))
            == horizontal_task(layout, seam, column).tile_b,
{
    let y = layout.y_seams@[seam];
    let e = layout.spec_y_edges();
    lemma_edges_increasing(&layout);
    assert(e[seam + 1] == y);
    assert(1 < y);
    assert(e[seam] < e[seam + 1]);
    assert(e[seam + 1] < e[seam + 2]);
    lemma_edges_partition_rows(&layout, seam, (y - 1) as u32);
    lemma_edges_partition_rows(&layout, seam + 1, y);
    lemma_edges_partition_columns(&layout, column, x);
    layout.lemma_tile_index_in_range(column, seam);
    layout.lemma_tile_index_in_range(column, seam + 1);
}

} // verus!
