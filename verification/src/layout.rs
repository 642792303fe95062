//! Pixel-space boundaries and tile topology resolved for a concrete image.

use vstd::prelude::*;

use crate::config::SeamSpec;
use crate::seams::{
    count_at_most, is_sorted_set_of, lemma_count_at_most_splits, lemma_count_at_most_sorted, lemma_increasing_length_bound,
    same_values, seams_inside, sorted_unique, strictly_increasing, lemma_sorted_set_unique,
};

verus! {

/// Why a seam layout could not be resolved for an image.
#[derive(Clone, Copy, Debug, PartialEq, Eq, Structural)]
pub enum LayoutError {
    /// The image is narrower or shorter than four pixels.
    TooSmall,
    /// The equal grid has zero columns or zero rows.
    EmptyGrid,
    /// The equal grid has more columns or rows than the image has pixels.
    GridTooDense,
    /// A vertical seam leaves fewer than two pixels on one of its sides.
    XSeamOutOfRange,
    /// A horizontal seam leaves fewer than two pixels on one of its sides.
    YSeamOutOfRange,
    /// Neither axis has a seam.
    NoSeams,
}

/// The explanation reported for each layout error.
pub open spec fn layout_error_text(error: LayoutError) -> Seq<char> {
    match error {
        LayoutError::TooSmall => "image must be at least 4x4 pixels"@,
        LayoutError::EmptyGrid => "grid dimensions must be non-zero"@,
        LayoutError::GridTooDense => "grid has more cells than pixels"@,
        LayoutError::XSeamOutOfRange => "x seam coordinates must leave at least two pixels on both sides"@,
        LayoutError::YSeamOutOfRange => "y seam coordinates must leave at least two pixels on both sides"@,
        LayoutError::NoSeams => "no seams were supplied; use --grid, --x-seams, or --y-seams"@,
    }
}

impl LayoutError {
    /// Human-readable explanation of the error.
    pub fn message(&self) -> (text: &'static str)
        ensures
            text@ == layout_error_text(*self),
    {
        match self {
            LayoutError::TooSmall => "image must be at least 4x4 pixels",
            LayoutError::EmptyGrid => "grid dimensions must be non-zero",
            LayoutError::GridTooDense => "grid has more cells than pixels",
            LayoutError::XSeamOutOfRange => "x seam coordinates must leave at least two pixels on both sides",
            LayoutError::YSeamOutOfRange => "y seam coordinates must leave at least two pixels on both sides",
            LayoutError::NoSeams => "no seams were supplied; use --grid, --x-seams, or --y-seams",
        }
    }
}

/// Pixel-space boundaries and tile topology resolved for a concrete image.
#[derive(Clone, Debug, PartialEq, Eq)]
pub struct Layout {
    pub width: u32,
    pub height: u32,
    pub x_seams: Vec<u32>,
    pub y_seams: Vec<u32>,
}

/// The `index`-th of the `cells - 1` boundaries of an equal split of
/// `length`, rounded to the nearest pixel (halves round up).
pub open spec fn equal_boundary(length: int, cells: int, index: int) -> int {
    (length * index + cells / 2) / cells
}

/// All interior boundaries of an equal split of `length` into `cells`.
pub open spec fn equal_boundary_seq(length: u32, cells: u32) -> Seq<u32> {
    Seq::new(
        if cells >= 1 {
            (cells - 1) as nat
        } else {
            0
        },
        |k: int| equal_boundary(length as int, cells as int, k + 1) as u32,
    )
}

/// The seam coordinates requested for one axis before normalization: the
/// explicit list when it is non-empty, otherwise the equal grid split.
pub open spec fn requested_seams(explicit: Seq<u32>, grid_cells: Option<u32>, length: u32) -> Seq<
    u32,
> {
    if explicit.len() > 0 {
        explicit
    } else {
        match grid_cells {
            Some(cells) => equal_boundary_seq(length, cells),
            None => Seq::empty(),
        }
    }
}

pub open spec fn requested_x(width: u32, spec: SeamSpec) -> Seq<u32> {
    requested_seams(
        spec.x@,
        match spec.grid {
            Some(g) => Some(g.columns),
            None => None,
        },
        width,
    )
}

pub open spec fn requested_y(height: u32, spec: SeamSpec) -> Seq<u32> {
    requested_seams(
        spec.y@,
        match spec.grid {
            Some(g) => Some(g.rows),
            None => None,
        },
        height,
    )
}

/// The error, if any, with which resolving `spec` for a `width` x `height`
/// image is refused. Checks are made in this order.
pub open spec fn resolve_error(width: u32, height: u32, spec: SeamSpec) -> Option<LayoutError> {
    if width < 4 || height < 4 {
        Some(LayoutError::TooSmall)
    } else if spec.grid matches Some(g) && (g.columns == 0 || g.rows == 0) {
        Some(LayoutError::EmptyGrid)
    } else if spec.grid matches Some(g) && (g.columns > width || g.rows > height) {
        Some(LayoutError::GridTooDense)
    } else if !seams_inside(requested_x(width, spec), width) {
        Some(LayoutError::XSeamOutOfRange)
    } else if !seams_inside(requested_y(height, spec), height) {
        Some(LayoutError::YSeamOutOfRange)
    } else if requested_x(width, spec).len() == 0 && requested_y(height, spec).len() == 0 {
        Some(LayoutError::NoSeams)
    } else {
        None
    }
}

/// `(length * index + cells / 2) / cells` is computed without overflow in
/// `u64` and lies in `0..=length`, for any number of cells.
proof fn lemma_equal_boundary_bounds(length: u32, cells: u32, index: u32)
    requires
        1 <= index < cells,
    ensures
        (length as int) * (index as int) + (cells as int) / 2 <= u64::MAX,
        0 <= equal_boundary(length as int, cells as int, index as int) <= length,
{
    let l = length as int;
    let c = cells as int;
    let i = index as int;
    assert(l * i <= 0xffff_ffff * 0xffff_ffff) by (nonlinear_arith)
        requires
            0 <= l <= 0xffff_ffff,
            0 <= i <= 0xffff_ffff,
    ;
    assert(l * i + c / 2 < (l + 1) * c) by (nonlinear_arith)
        requires
            1 <= i < c,
            0 <= l,
    ;
    assert((l * i + c / 2) / c < l + 1) by (nonlinear_arith)
        requires
            0 <= l * i + c / 2 < (l + 1) * c,
            c > 0,
    ;
    assert((l * i + c / 2) / c >= 0) by (nonlinear_arith)
        requires
            0 <= l * i + c / 2,
            c > 0,
    ;
}

/// Consecutive equal-grid boundaries are at least one pixel apart.
proof fn lemma_equal_boundary_step(length: int, cells: int, index: int)
    requires
        1 <= cells <= length,
        0 <= index,
    ensures
        equal_boundary(length, cells, index) + 1 <= equal_boundary(length, cells, index + 1),
{
    assert(length * (index + 1) == length * index + length) by (nonlinear_arith);
    assert(length * index >= 0) by (nonlinear_arith)
        requires
            length >= 0,
            index >= 0,
    ;
    let a = length * index + cells / 2;
    assert((a + length) / cells >= a / cells + 1) by (nonlinear_arith)
        requires
            a >= 0,
            1 <= cells <= length,
    ;
}

/// The boundaries of an equal grid are strictly increasing: every cell of
/// an equal split is at least one pixel wide.
pub proof fn lemma_equal_boundaries_increasing(length: u32, cells: u32)
    requires
        1 <= cells <= length,
    ensures
        strictly_increasing(equal_boundary_seq(length, cells)),
{
    let s = equal_boundary_seq(length, cells);
    assert forall|i: int, j: int| 0 <= i < j < s.len() implies s[i] < s[j] by {
        lemma_equal_boundary_monotone(length, cells, i + 1, j + 1);
        lemma_equal_boundary_bounds(length, cells, (i + 1) as u32);
        lemma_equal_boundary_bounds(length, cells, (j + 1) as u32);
    }
}

proof fn lemma_equal_boundary_monotone(length: u32, cells: u32, i: int, j: int)
    requires
        1 <= cells <= length,
        0 <= i < j,
    ensures
        equal_boundary(length as int, cells as int, i) < equal_boundary(
            length as int,
            cells as int,
            j,
        ),
    decreases j - i,
{
    lemma_equal_boundary_step(length as int, cells as int, j - 1);
    if i < j - 1 {
        lemma_equal_boundary_monotone(length, cells, i, j - 1);
    }
}

/// The interior boundaries of an equal split of `length` into `cells`,
/// each rounded to the nearest pixel. With more cells than pixels some
/// boundaries coincide; with no cells there are none.
pub fn equal_boundaries(length: u32, cells: u32) -> (boundaries: Vec<u32>)
    ensures
        boundaries@ == equal_boundary_seq(length, cells),
        forall|k: int|
            0 <= k < boundaries@.len() ==> #[trigger] boundaries@[k] <= length && boundaries@[k]
                == equal_boundary(length as int, cells as int, k + 1),
{
    let mut boundaries: Vec<u32> = Vec::new();
    if cells == 0 {
        assert(boundaries@ =~= equal_boundary_seq(length, cells));
        return boundaries;
    }
    let mut index: u32 = 1;
    while index < cells
        invariant
            1 <= index <= cells,
            forall|k: int|
                0 <= k < boundaries@.len() ==> #[trigger] boundaries@[k] <= length && boundaries@[k]
                    == equal_boundary(length as int, cells as int, k + 1),
            boundaries@ =~= equal_boundary_seq(length, cells).take(index - 1),
        decreases cells - index,
    {
        proof {
            lemma_equal_boundary_bounds(length, cells, index);
        }
        let value: u64 = (length as u64 * index as u64 + (cells / 2) as u64) / cells as u64;
        boundaries.push(value as u32);
        index = index + 1;
    }
    boundaries
}

/// Whether every coordinate leaves at least two pixels on both sides.
pub fn all_inside(seams: &Vec<u32>, limit: u32) -> (inside: bool)
    ensures
        inside == seams_inside(seams@, limit),
{
    let mut i: usize = 0;
    while i < seams.len()
        invariant
            i <= seams.len(),
            forall|k: int| 0 <= k < i ==> 1 < #[trigger] seams@[k] && seams@[k] + 1 < limit,
        decreases seams.len() - i,
    {
        let value = seams[i];
        if !(value > 1 && (value as u64) + 1 < limit as u64) {
            return false;
        }
        i = i + 1;
    }
    true
}

/// Sort and deduplicate `seams`, then report whether every coordinate
/// leaves at least two pixels on both of its sides.
pub fn normalize_seams(seams: &mut Vec<u32>, limit: u32) -> (inside: bool)
    ensures
        is_sorted_set_of(final(seams)@, old(seams)@),
        inside == seams_inside(final(seams)@, limit),
{
    let sorted = sorted_unique(seams);
    *seams = sorted;
    all_inside(seams, limit)
}

/// Normalized seams are inside exactly when the requested ones are.
proof fn lemma_inside_same_values(a: Seq<u32>, b: Seq<u32>, limit: u32)
    requires
        same_values(a, b),
    ensures
        seams_inside(a, limit) == seams_inside(b, limit),
{
    if seams_inside(a, limit) {
        assert forall|i: int| 0 <= i < b.len() implies 1 < #[trigger] b[i] && b[i] + 1 < limit by {
            assert(b.contains(b[i]));
            let k = choose|k: int| 0 <= k < a.len() && a[k] == b[i];
            assert(1 < a[k]);
        }
    }
    if seams_inside(b, limit) {
        assert forall|i: int| 0 <= i < a.len() implies 1 < #[trigger] a[i] && a[i] + 1 < limit by {
            assert(a.contains(a[i]));
            let k = choose|k: int| 0 <= k < b.len() && b[k] == a[i];
            assert(1 < b[k]);
        }
    }
}

/// Two lists with the same values are either both empty or both non-empty.
proof fn lemma_empty_same_values(a: Seq<u32>, b: Seq<u32>)
    requires
        same_values(a, b),
    ensures
        (a.len() == 0) == (b.len() == 0),
{
    if a.len() > 0 {
        assert(a.contains(a[0]));
    }
    if b.len() > 0 {
        assert(b.contains(b[0]));
    }
}

impl Layout {
    /// The invariant of every resolved layout: the image is at least 4x4 and
    /// each axis holds ascending, distinct seams that leave two pixels on
    /// both sides.
    pub open spec fn wf(&self) -> bool {
        &&& self.width >= 4
        &&& self.height >= 4
        &&& strictly_increasing(self.x_seams@)
        &&& strictly_increasing(self.y_seams@)
        &&& seams_inside(self.x_seams@, self.width)
        &&& seams_inside(self.y_seams@, self.height)
        &&& self.x_seams@.len() + self.y_seams@.len() > 0
    }

    pub open spec fn spec_columns(&self) -> int {
        self.x_seams@.len() as int + 1
    }

    pub open spec fn spec_rows(&self) -> int {
        self.y_seams@.len() as int + 1
    }

    pub open spec fn spec_tile_count(&self) -> int {
        self.spec_columns() * self.spec_rows()
    }

    pub open spec fn spec_tile_index(&self, column: int, row: int) -> int {
        row * self.spec_columns() + column
    }

    /// The column holding pixel column `x`: the number of vertical seams at
    /// or before `x`.
    pub open spec fn column_of(&self, x: u32) -> int {
        count_at_most(self.x_seams@, x) as int
    }

    /// The row holding pixel row `y`.
    pub open spec fn row_of(&self, y: u32) -> int {
        count_at_most(self.y_seams@, y) as int
    }

    pub open spec fn spec_x_edges(&self) -> Seq<u32> {
        seq![0u32] + self.x_seams@ + seq![self.width]
    }

    pub open spec fn spec_y_edges(&self) -> Seq<u32> {
        seq![0u32] + self.y_seams@ + seq![self.height]
    }

    /// Both seam lists are ascending and free of repeats, as `tile_at`
    /// needs them to be; every well-formed layout has this.
    pub open spec fn seams_sorted(&self) -> bool {
        strictly_increasing(self.x_seams@) && strictly_increasing(self.y_seams@)
    }

    /// The tile count of the layout fits the platform's `usize`.
    pub open spec fn counts_fit(&self) -> bool {
        self.spec_tile_count() <= usize::MAX
    }

    /// Resolve explicit seams or an equal grid for a `width` x `height` image.
    ///
    /// Explicit coordinates replace the grid on their own axis. Coordinates
    /// are sorted and deduplicated.
    pub fn resolve(width: u32, height: u32, spec: &SeamSpec) -> (result: Result<Layout, LayoutError>)
        ensures
            match result {
                Ok(layout) => {
                    &&& resolve_error(width, height, *spec) is None
                    &&& layout.width == width
                    &&& layout.height == height
                    &&& is_sorted_set_of(layout.x_seams@, requested_x(width, *spec))
                    &&& is_sorted_set_of(layout.y_seams@, requested_y(height, *spec))
                    &&& layout.wf()
                },
                Err(error) => resolve_error(width, height, *spec) == Some(error),
            },
    {
        if width < 4 || height < 4 {
            return Err(LayoutError::TooSmall);
        }
        let mut x: Vec<u32> = Vec::new();
        let mut y: Vec<u32> = Vec::new();
        if let Some(grid) = spec.grid {
            if grid.columns == 0 || grid.rows == 0 {
                return Err(LayoutError::EmptyGrid);
            }
            if grid.columns > width || grid.rows > height {
                return Err(LayoutError::GridTooDense);
            }
            x = equal_boundaries(width, grid.columns);
            y = equal_boundaries(height, grid.rows);
        }
        if spec.x.len() > 0 {
            x = sorted_unique(&spec.x);
        } else {
            x = sorted_unique(&x);
        }
        if spec.y.len() > 0 {
            y = sorted_unique(&spec.y);
        } else {
            y = sorted_unique(&y);
        }
        proof {
            lemma_inside_same_values(x@, requested_x(width, *spec), width);
            lemma_inside_same_values(y@, requested_y(height, *spec), height);
            lemma_empty_same_values(x@, requested_x(width, *spec));
            lemma_empty_same_values(y@, requested_y(height, *spec));
        }
        if !all_inside(&x, width) {
            return Err(LayoutError::XSeamOutOfRange);
        }
        if !all_inside(&y, height) {
            return Err(LayoutError::YSeamOutOfRange);
        }
        if x.len() == 0 && y.len() == 0 {
            return Err(LayoutError::NoSeams);
        }
        Ok(Layout { width, height, x_seams: x, y_seams: y })
    }

    /// Number of tile columns.
    pub fn columns(&self) -> (columns: usize)
        requires
            self.x_seams@.len() < usize::MAX,
        ensures
            columns == self.spec_columns(),
    {
        self.x_seams.len() + 1
    }

    /// Number of tile rows.
    pub fn rows(&self) -> (rows: usize)
        requires
            self.y_seams@.len() < usize::MAX,
        ensures
            rows == self.spec_rows(),
    {
        self.y_seams.len() + 1
    }

    /// Number of tiles.
    pub fn tile_count(&self) -> (count: usize)
        requires
            self.counts_fit(),
        ensures
            count == self.spec_tile_count(),
    {
        proof {
            let c = self.spec_columns();
            let r = self.spec_rows();
            assert(c <= c * r && r <= c * r) by (nonlinear_arith)
                requires
                    c >= 1,
                    r >= 1,
            ;
        }
        self.columns() * self.rows()
    }

    /// Row-major index of the tile at `column`, `row`.
    pub fn tile_index(&self, column: usize, row: usize) -> (index: usize)
        requires
            self.x_seams@.len() < usize::MAX,
            self.spec_tile_index(column as int, row as int) <= usize::MAX,
        ensures
            index == self.spec_tile_index(column as int, row as int),
    {
        proof {
            assert(row * self.spec_columns() >= 0) by (nonlinear_arith)
                requires
                    row >= 0,
                    self.spec_columns() >= 1,
            ;
        }
        row * self.columns() + column
    }

    /// Column and row of the tile holding pixel `x`, `y`: the number of
    /// seams at or before each coordinate.
    pub fn cell_at(&self, x: u32, y: u32) -> (cell: (usize, usize))
        requires
            self.seams_sorted(),
        ensures
            cell.0 == self.column_of(x),
            cell.1 == self.row_of(y),
            cell.0 < self.spec_columns(),
            cell.1 < self.spec_rows(),
    {
        (seams_at_most(&self.x_seams, x), seams_at_most(&self.y_seams, y))
    }

    /// Index of the tile holding pixel `x`, `y`.
    pub fn tile_at(&self, x: u32, y: u32) -> (index: usize)
        requires
            self.seams_sorted(),
            self.counts_fit(),
        ensures
            index == self.spec_tile_index(self.column_of(x), self.row_of(y)),
            index < self.spec_tile_count(),
    {
        let column = seams_at_most(&self.x_seams, x);
        let row = seams_at_most(&self.y_seams, y);
        proof {
            let c = self.spec_columns();
            let r = self.spec_rows();
            assert(c <= c * r) by (nonlinear_arith)
                requires
                    c >= 1,
                    r >= 1,
            ;
            self.lemma_tile_index_in_range(column as int, row as int);
        }
        self.tile_index(column, row)
    }

    /// Column boundaries, including the two image edges.
    pub fn x_edges(&self) -> (edges: Vec<u32>)
        requires
            self.x_seams@.len() + 2 <= usize::MAX,
        ensures
            edges@ == self.spec_x_edges(),
    {
        edges_between(self.width, &self.x_seams)
    }

    /// Row boundaries, including the two image edges.
    pub fn y_edges(&self) -> (edges: Vec<u32>)
        requires
            self.y_seams@.len() + 2 <= usize::MAX,
        ensures
            edges@ == self.spec_y_edges(),
    {
        edges_between(self.height, &self.y_seams)
    }

    /// A well-formed layout has fewer seams on each axis than pixels, so its
    /// column and row counts are small.
    pub proof fn lemma_counts_bounded(&self)
        requires
            self.wf(),
        ensures
            self.spec_columns() + 2 <= self.width,
            self.spec_rows() + 2 <= self.height,
            self.spec_columns() + 1 < usize::MAX,
            self.spec_rows() + 1 < usize::MAX,
            self.spec_tile_count() >= 1,
    {
        lemma_increasing_length_bound(self.x_seams@, 2, self.width - 2);
        lemma_increasing_length_bound(self.y_seams@, 2, self.height - 2);
        assert(self.spec_columns() * self.spec_rows() >= 1) by (nonlinear_arith)
            requires
                self.spec_columns() >= 1,
                self.spec_rows() >= 1,
        ;
    }

    /// Every column and row index of a well-formed layout names a tile.
    pub proof fn lemma_tile_index_in_range(&self, column: int, row: int)
        requires
            0 <= column < self.spec_columns(),
            0 <= row < self.spec_rows(),
        ensures
            0 <= self.spec_tile_index(column, row) < self.spec_tile_count(),
    {
        let c = self.spec_columns();
        let r = self.spec_rows();
        assert(row * c + column < c * r) by (nonlinear_arith)
            requires
                0 <= column < c,
                0 <= row < r,
        ;
        assert(row * c + column >= 0) by (nonlinear_arith)
            requires
                0 <= column < c,
                0 <= row < r,
        ;
    }
}

/// Within a well-formed layout, the pixel columns from one column edge up
/// to (but excluding) the next all belong to that column, and likewise for
/// rows: the edges partition the image into its tiles.
pub proof fn lemma_edges_partition_columns(layout: &Layout, column: int, x: u32)
    requires
        layout.wf(),
        0 <= column < layout.spec_columns(),
        layout.spec_x_edges()[column] <= x < layout.spec_x_edges()[column + 1],
    ensures
        layout.column_of(x) == column,
{
    let s = layout.x_seams@;
    let e = layout.spec_x_edges();
    assert forall|i: int| 0 <= i < column implies s[i] <= x by {
        assert(e[column] == s[column - 1]);
        if i < column - 1 {
            assert(s[i] < s[column - 1]);
        }
    }
    assert forall|i: int| column <= i < s.len() implies x < s[i] by {
        assert(e[column + 1] == s[column]);
        if i > column {
            assert(s[column] < s[i]);
        }
    }
    lemma_count_at_most_sorted(s, x, column);
}

/// Every pixel lies between the edges of the column and row that
/// `tile_at` assigns it to; a pixel on a seam belongs to the tile right of
/// or below that seam.
pub proof fn lemma_pixel_between_its_edges(layout: &Layout, x: u32, y: u32)
    requires
        layout.seams_sorted(),
        x < layout.width,
        y < layout.height,
    ensures
        0 <= layout.column_of(x) < layout.spec_columns(),
        0 <= layout.row_of(y) < layout.spec_rows(),
        layout.spec_x_edges()[layout.column_of(x)] <= x < layout.spec_x_edges()[layout.column_of(x) + 1],
        layout.spec_y_edges()[layout.row_of(y)] <= y < layout.spec_y_edges()[layout.row_of(y) + 1],
{
    lemma_count_at_most_splits(layout.x_seams@, x);
    lemma_count_at_most_splits(layout.y_seams@, y);
    let c = layout.column_of(x);
    let r = layout.row_of(y);
    let ex = layout.spec_x_edges();
    let ey = layout.spec_y_edges();
    if c > 0 {
        assert(ex[c] == layout.x_seams@[c - 1]);
    }
    if c < layout.x_seams@.len() {
        assert(ex[c + 1] == layout.x_seams@[c]);
    }
    if r > 0 {
        assert(ey[r] == layout.y_seams@[r - 1]);
    }
    if r < layout.y_seams@.len() {
        assert(ey[r + 1] == layout.y_seams@[r]);
    }
}

/// Distinct cells have distinct row-major tile indices.
pub proof fn lemma_tile_index_injective(layout: &Layout, c1: int, r1: int, c2: int, r2: int)
    requires
        0 <= c1 < layout.spec_columns(),
        0 <= c2 < layout.spec_columns(),
        0 <= r1,
        0 <= r2,
        layout.spec_tile_index(c1, r1) == layout.spec_tile_index(c2, r2),
    ensures
        c1 == c2,
        r1 == r2,
{
    let c = layout.spec_columns();
    vstd::arithmetic::div_mod::lemma_fundamental_div_mod_converse(r1 * c + c1, c, r1, c1);
    vstd::arithmetic::div_mod::lemma_fundamental_div_mod_converse(r2 * c + c2, c, r2, c2);
}

/// Row counterpart of `lemma_edges_partition_columns`.
pub proof fn lemma_edges_partition_rows(layout: &Layout, row: int, y: u32)
    requires
        layout.wf(),
        0 <= row < layout.spec_rows(),
        layout.spec_y_edges()[row] <= y < layout.spec_y_edges()[row + 1],
    ensures
        layout.row_of(y) == row,
{
    let s = layout.y_seams@;
    let e = layout.spec_y_edges();
    assert forall|i: int| 0 <= i < row implies s[i] <= y by {
        assert(e[row] == s[row - 1]);
        if i < row - 1 {
            assert(s[i] < s[row - 1]);
        }
    }
    assert forall|i: int| row <= i < s.len() implies y < s[i] by {
        assert(e[row + 1] == s[row]);
        if i > row {
            assert(s[row] < s[i]);
        }
    }
    lemma_count_at_most_sorted(s, y, row);
}

/// The column and row edges of a well-formed layout start at zero, end at
/// the image size, and strictly increase: every tile is at least one pixel
/// wide and tall.
pub proof fn lemma_edges_increasing(layout: &Layout)
    requires
        layout.wf(),
    ensures
        strictly_increasing(layout.spec_x_edges()),
        strictly_increasing(layout.spec_y_edges()),
        layout.spec_x_edges()[0] == 0,
        layout.spec_x_edges().last() == layout.width,
        layout.spec_y_edges()[0] == 0,
        layout.spec_y_edges().last() == layout.height,
{
    lemma_edges_increasing_axis(layout.x_seams@, layout.width);
    lemma_edges_increasing_axis(layout.y_seams@, layout.height);
}

proof fn lemma_edges_increasing_axis(s: Seq<u32>, limit: u32)
    requires
        strictly_increasing(s),
        seams_inside(s, limit),
        limit >= 4,
    ensures
        strictly_increasing(seq![0u32] + s + seq![limit]),
{
    let e = seq![0u32] + s + seq![limit];
    assert(e.len() == s.len() + 2);
    assert(e[0] == 0);
    assert(e[e.len() - 1] == limit);
    assert forall|k: int| 1 <= k <= s.len() implies #[trigger] e[k] == s[k - 1] && 1 < e[k] && e[k]
        + 1 < limit by {
        assert(e[k] == s[k - 1]);
        assert(1 < s[k - 1] && s[k - 1] + 1 < limit);
    }
    assert forall|i: int, j: int| 0 <= i < j < e.len() implies e[i] < e[j] by {
        if i == 0 {
            if j <= s.len() {
                assert(1 < e[j]);
            }
        } else if j == e.len() - 1 {
            assert(e[i] + 1 < limit);
        } else {
            assert(e[i] == s[i - 1] && e[j] == s[j - 1]);
        }
    }
}

/// Resolving a layout's own seams again, as explicit lists without a grid,
/// succeeds and gives back exactly the same seams.
pub proof fn lemma_resolve_is_idempotent(layout: &Layout, again: SeamSpec)
    requires
        layout.wf(),
        again.x@ == layout.x_seams@,
        again.y@ == layout.y_seams@,
        again.grid is None,
    ensures
        resolve_error(layout.width, layout.height, again) is None,
        forall|s: Seq<u32>|
            is_sorted_set_of(s, requested_x(layout.width, again)) ==> s == layout.x_seams@,
        forall|s: Seq<u32>|
            is_sorted_set_of(s, requested_y(layout.height, again)) ==> s == layout.y_seams@,
{
    assert(requested_x(layout.width, again) == layout.x_seams@);
    assert(requested_y(layout.height, again) == layout.y_seams@);
    assert forall|s: Seq<u32>|
        is_sorted_set_of(s, requested_x(layout.width, again)) implies s == layout.x_seams@ by {
        lemma_sorted_set_unique(s, layout.x_seams@);
    }
    assert forall|s: Seq<u32>|
        is_sorted_set_of(s, requested_y(layout.height, again)) implies s == layout.y_seams@ by {
        lemma_sorted_set_unique(s, layout.y_seams@);
    }
}

/// The sorted seams at or before `v`, counted by a scan that stops at the
/// first larger seam.
fn seams_at_most(seams: &Vec<u32>, v: u32) -> (count: usize)
    requires
        strictly_increasing(seams@),
    ensures
        count == count_at_most(seams@, v),
        count <= seams@.len(),
{
    let mut count: usize = 0;
    while count < seams.len() && seams[count] <= v
        invariant
            count <= seams.len(),
            forall|i: int| 0 <= i < count ==> seams@[i] <= v,
        decreases seams.len() - count,
    {
        count = count + 1;
    }
    proof {
        if count < seams.len() {
            assert forall|i: int| count <= i < seams@.len() implies v < seams@[i] by {
                if i > count {
                    assert(seams@[count as int] < seams@[i]);
                }
            }
        }
        lemma_count_at_most_sorted(seams@, v, count as int);
    }
    count
}

/// `0`, the seams, and the far image edge.
fn edges_between(limit: u32, seams: &Vec<u32>) -> (edges: Vec<u32>)
    requires
        seams@.len() + 2 <= usize::MAX,
    ensures
        edges@ == seq![0u32] + seams@ + seq![limit],
{
    let mut edges: Vec<u32> = Vec::new();
    edges.push(0);
    let mut i: usize = 0;
    while i < seams.len()
        invariant
            i <= seams.len(),
            edges@ =~= seq![0u32] + seams@.take(i as int),
        decreases seams.len() - i,
    {
        edges.push(seams[i]);
        i = i + 1;
    }
    edges.push(limit);
    assert(seams@.take(seams@.len() as int) =~= seams@);
    assert(edges@ =~= seq![0u32] + seams@ + seq![limit]);
    edges
}

} // verus!
