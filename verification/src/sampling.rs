//! Pixel ranges and positions scanned across and along a seam, and the
//! seams near a pixel.

use vstd::prelude::*;

use crate::layout::Layout;
use vstd::math::min;

verus! {

/// Why a sampling setting was refused.
#[derive(Clone, Copy, Debug, PartialEq, Eq, Structural)]
pub enum SamplingError {
    /// The analysis band has no width.
    ZeroScanRadius,
    /// Positions along a seam would never advance.
    ZeroSampleStride,
}

/// The explanation reported for each refused sampling setting.
pub open spec fn sampling_error_text(error: SamplingError) -> Seq<char> {
    match error {
        SamplingError::ZeroScanRadius => "scan radius must be at least one pixel"@,
        SamplingError::ZeroSampleStride => "sample stride must be at least one pixel"@,
    }
}

impl SamplingError {
    pub fn message(&self) -> (text: &'static str)
        ensures
            text@ == sampling_error_text(*self),
    {
        match self {
            SamplingError::ZeroScanRadius => "scan radius must be at least one pixel",
            SamplingError::ZeroSampleStride => "sample stride must be at least one pixel",
        }
    }
}

/// Check the integer sampling settings, in the order the engine does.
pub fn validate_sampling(scan_radius: u32, sample_stride: u32) -> (result: Result<(), SamplingError>)
    ensures
        result == if scan_radius == 0 {
            Err::<(), SamplingError>(SamplingError::ZeroScanRadius)
        } else if sample_stride == 0 {
            Err(SamplingError::ZeroSampleStride)
        } else {
            Ok(())
        },
{
    if scan_radius == 0 {
        return Err(SamplingError::ZeroScanRadius);
    }
    if sample_stride == 0 {
        return Err(SamplingError::ZeroSampleStride);
    }
    Ok(())
}

/// `a` divided by `b`, rounded up.
pub open spec fn ceil_div(a: int, b: int) -> int {
    (a + b - 1) / b
}

/// Length of `start..end`, or zero when the range is empty.
pub open spec fn span(start: u32, end: u32) -> int {
    if end > start {
        end - start
    } else {
        0
    }
}

/// Number of positions visited when walking `start..end` in steps of
/// `stride`.
pub fn expected_sample_count(start: u32, end: u32, stride: u32) -> (count: usize)
    requires
        stride > 0,
    ensures
        count == ceil_div(span(start, end), stride as int),
{
    let length: u32 = if end > start {
        end - start
    } else {
        0
    };
    let quotient = length / stride;
    let remainder = length % stride;
    proof {
        let a = length as int;
        let b = stride as int;
        assert((a + b - 1) / b == a / b + if a % b != 0 {
            1int
        } else {
            0int
        }) by (nonlinear_arith)
            requires
                a >= 0,
                b > 0,
        ;
        assert(a % b != 0 ==> a / b + 1 <= a) by (nonlinear_arith)
            requires
                a >= 0,
                b > 0,
        ;
        assert(a / b <= a) by (nonlinear_arith)
            requires
                a >= 0,
                b > 0,
        ;
    }
    let count: u32 = if remainder != 0 {
        quotient + 1
    } else {
        quotient
    };
    count as usize
}

/// The positions `start`, `start + stride`, ... that lie before `end`.
pub fn sample_positions(start: u32, end: u32, stride: u32) -> (positions: Vec<u32>)
    requires
        stride > 0,
    ensures
        positions@.len() == ceil_div(span(start, end), stride as int),
        forall|k: int|
            0 <= k < positions@.len() ==> #[trigger] positions@[k] == start + k * stride,
{
    let mut positions: Vec<u32> = Vec::new();
    if end <= start {
        proof {
            assert((0 + stride - 1) / (stride as int) == 0) by (nonlinear_arith)
                requires
                    stride > 0,
            ;
        }
        return positions;
    }
    let mut position: u64 = start as u64;
    proof {
        let a = (end - start) as int;
        let b = stride as int;
        assert(0 < (a + b - 1) / b) by (nonlinear_arith)
            requires
                a > 0,
                b > 0,
        ;
        assert(positions@.len() == 0);
        assert(positions@.len() * stride == 0);
    }
    while position < end as u64
        invariant
            start < end,
            stride > 0,
            position == start + positions@.len() * stride,
            positions@.len() <= ceil_div(span(start, end), stride as int),
            position < end as u64 ==> positions@.len() < ceil_div(span(start, end), stride as int),
            position >= end as u64 ==> positions@.len() == ceil_div(span(start, end), stride as int),
            forall|k: int|
                0 <= k < positions@.len() ==> #[trigger] positions@[k] == start + k * stride,
            position < end as int + stride as int,
        decreases end as int + stride as int - position as int,
    {
        let ghost n = positions@.len() as int;
        positions.push(position as u32);
        position = position + stride as u64;
        proof {
            let a = (end - start) as int;
            let b = stride as int;
            assert(position == start + (n + 1) * stride) by (nonlinear_arith)
                requires
                    position == start + n * stride + stride,
            ;
            // Position n + 1 is before the end exactly when n + 1 < ceil(a / b).
            assert((n + 1) * b < a <==> n + 1 < (a + b - 1) / b) by (nonlinear_arith)
                requires
                    n >= 0,
                    b > 0,
                    a > 0,
            ;
            assert(n * b < a ==> n + 1 <= (a + b - 1) / b) by (nonlinear_arith)
                requires
                    n >= 0,
                    b > 0,
                    a > 0,
            ;
        }
    }
    positions
}

/// The coordinates considered for a seam's exact position: `nominal`
/// widened by `refine_radius` on both sides, kept at least two pixels away
/// from both image edges.
pub fn refine_search_range(nominal: u32, refine_radius: u32, axis_limit: u32) -> (range: (u32, u32))
    ensures
        range.0 == if nominal >= refine_radius + 2 {
            nominal - refine_radius
        } else {
            2
        },
        range.1 == if nominal + refine_radius <= u32::MAX {
            if (nominal + refine_radius) as int <= axis_limit as int - 2 {
                nominal + refine_radius
            } else if axis_limit >= 2 {
                axis_limit - 2
            } else {
                0
            }
        } else if axis_limit >= 2 {
            axis_limit - 2
        } else {
            0
        },
{
    let lower = if nominal >= refine_radius {
        nominal - refine_radius
    } else {
        0
    };
    let start = if lower > 2 {
        lower
    } else {
        2
    };
    let upper = if nominal as u64 + refine_radius as u64 <= 0xffff_ffff {
        nominal + refine_radius
    } else {
        0xffff_ffff
    };
    let limit = if axis_limit >= 2 {
        axis_limit - 2
    } else {
        0
    };
    let end = if upper < limit {
        upper
    } else {
        limit
    };
    (start, end)
}

/// With no refinement, a seam at least two pixels inside the image is
/// searched at exactly its nominal coordinate: direct coordinates are exact.
pub proof fn lemma_unrefined_search_is_exact(nominal: u32, axis_limit: u32)
    requires
        2 <= nominal,
        nominal + 2 <= axis_limit,
    ensures
        (if nominal >= 0 + 2 {
            nominal - 0
        } else {
            2
        }) == nominal,
        (if (nominal + 0) as int <= axis_limit as int - 2 {
            nominal + 0
        } else {
            axis_limit - 2
        }) == nominal,
{
}

/// Half-width of the analysis bands at `coordinate`: the requested radius,
/// reduced so that two bands fit on each side inside the image.
pub fn scan_band_radius(scan_radius: u32, coordinate: u32, axis_limit: u32) -> (radius: u32)
    ensures
        radius == min(
            scan_radius as int,
            min(coordinate as int, if axis_limit >= coordinate {
                axis_limit - coordinate
            } else {
                0
            }) / 2,
        ),
{
    let after = if axis_limit >= coordinate {
        axis_limit - coordinate
    } else {
        0
    };
    let available = if coordinate < after {
        coordinate
    } else {
        after
    };
    let half = available / 2;
    if scan_radius < half {
        scan_radius
    } else {
        half
    }
}

/// The four bands sampled across a seam at `coordinate`, each `radius`
/// pixels wide: far and near before the seam, then near and far after it.
pub open spec fn bands_of(coordinate: u32, radius: u32) -> [(u32, u32); 4] {
    [
        ((coordinate - 2 * radius) as u32, (coordinate - radius) as u32),
        ((coordinate - radius) as u32, coordinate),
        (coordinate, (coordinate + radius) as u32),
        ((coordinate + radius) as u32, (coordinate + 2 * radius) as u32),
    ]
}

/// The far-before, near-before, near-after and far-after bands.
pub fn sample_bands(coordinate: u32, radius: u32) -> (bands: [(u32, u32); 4])
    requires
        2 * radius <= coordinate,
        coordinate + 2 * radius <= u32::MAX,
    ensures
        bands == bands_of(coordinate, radius),
{
    [
        (coordinate - 2 * radius, coordinate - radius),
        (coordinate - radius, coordinate),
        (coordinate, coordinate + radius),
        (coordinate + radius, coordinate + 2 * radius),
    ]
}

/// With the radius chosen by `scan_band_radius`, the four bands tile the
/// `4 * radius` pixels around the seam without gaps and never leave the
/// image.
pub proof fn lemma_bands_stay_inside(scan_radius: u32, coordinate: u32, axis_limit: u32)
    requires
        coordinate <= axis_limit,
    ensures
        ({
            let r = min(scan_radius as int, min(coordinate as int, axis_limit - coordinate) / 2);
            &&& 2 * r <= coordinate
            &&& coordinate + 2 * r <= axis_limit
            &&& bands_of(coordinate, r as u32)[0].1 == bands_of(coordinate, r as u32)[1].0
            &&& bands_of(coordinate, r as u32)[1].1 == coordinate
            &&& bands_of(coordinate, r as u32)[2].0 == coordinate
            &&& bands_of(coordinate, r as u32)[2].1 == bands_of(coordinate, r as u32)[3].0
            &&& bands_of(coordinate, r as u32)[0].0 + 4 * r == bands_of(coordinate, r as u32)[3].1
        }),
{
}

/// Fewest usable samples a band of `radius` pixels must hold: half of it,
/// rounded up.
pub fn minimum_band_samples(radius: u32) -> (count: usize)
    ensures
        count == ceil_div(radius as int, 2),
{
    (radius / 2 + radius % 2) as usize
}

/// Index into a segment's profile for a position along the seam, clamped to
/// the segment.
pub fn profile_index(position: u32, segment_start: u32, segment_end: u32) -> (index: u32)
    requires
        segment_start < segment_end,
    ensures
        index == min(
            if position >= segment_start {
                position - segment_start
            } else {
                0
            },
            segment_end - segment_start - 1,
        ),
        index < segment_end - segment_start,
{
    let offset = if position >= segment_start {
        position - segment_start
    } else {
        0
    };
    let last = segment_end - segment_start - 1;
    if offset < last {
        offset
    } else {
        last
    }
}

/// Distance of `position` from a seam at `coordinate`, and whether it lies
/// before the seam (left or above).
pub fn seam_offset(position: u32, coordinate: u32) -> (offset: (u32, bool))
    ensures
        offset.0 == if position >= coordinate {
            position - coordinate
        } else {
            coordinate - position
        },
        offset.1 == (position < coordinate),
{
    if position < coordinate {
        (coordinate - position, true)
    } else {
        (position - coordinate, false)
    }
}

/// The seams that can bound tile column (or row) `index` of an axis with
/// `seam_count` seams: the one before it and the one after it, where they
/// exist.
pub fn adjacent_seams(index: usize, seam_count: usize) -> (seams: (Option<usize>, Option<usize>))
    ensures
        seams.0 == if 1 <= index && index - 1 < seam_count {
            Some((index - 1) as usize)
        } else {
            None::<usize>
        },
        seams.1 == if index < seam_count {
            Some(index)
        } else {
            None::<usize>
        },
{
    let before = if index >= 1 && index - 1 < seam_count {
        Some(index - 1)
    } else {
        None
    };
    let after = if index < seam_count {
        Some(index)
    } else {
        None
    };
    (before, after)
}

/// Row and column of a row-major tile index.
pub fn tile_position(tile: usize, columns: usize) -> (position: (usize, usize))
    requires
        columns > 0,
    ensures
        position.0 == tile / columns,
        position.1 == tile % columns,
{
    (tile / columns, tile % columns)
}

/// The row and column recovered from a tile index are the ones the index
/// was made from.
pub proof fn lemma_tile_position_inverts_index(layout: Layout, column: int, row: int)
    requires
        0 <= column < layout.spec_columns(),
        0 <= row,
    ensures
        layout.spec_tile_index(column, row) / layout.spec_columns() == row,
        layout.spec_tile_index(column, row) % layout.spec_columns() == column,
{
    let c = layout.spec_columns();
    vstd::arithmetic::div_mod::lemma_fundamental_div_mod_converse(
        row * c + column,
        c,
        row,
        column,
    );
}

/// Width of the `i`-th interval between consecutive edges.
pub open spec fn gap(edges: Seq<u32>, i: int) -> int {
    edges[i + 1] - edges[i]
}

/// Some interval between consecutive edges is narrower than `limit`.
pub open spec fn has_gap_below(edges: Seq<u32>, limit: int) -> bool {
    exists|i: int| 0 <= i < edges.len() - 1 && limit > #[trigger] gap(edges, i)
}

/// Twice the blend width (saturated) exceeds the width or height of some
/// tile: the raised-cosine ramps of two opposite seams of that tile overlap.
pub open spec fn ramps_overlap_spec(layout: Layout, blend_width: u32) -> bool {
    let doubled = min(2 * blend_width as int, u32::MAX as int);
    blend_width > 0 && (has_gap_below(layout.spec_x_edges(), doubled) || has_gap_below(
        layout.spec_y_edges(),
        doubled,
    ))
}

/// Whether a local correction ramp of `blend_width` pixels reaches past the
/// middle of some tile.
pub fn blend_ramps_overlap(layout: &Layout, blend_width: u32) -> (overlap: bool)
    requires
        layout.wf(),
    ensures
        overlap == ramps_overlap_spec(*layout, blend_width),
{
    if blend_width == 0 {
        return false;
    }
    proof {
        layout.lemma_counts_bounded();
    }
    let doubled: u32 = if blend_width <= 0x7fff_ffff {
        2 * blend_width
    } else {
        0xffff_ffff
    };
    let x_edges = layout.x_edges();
    let y_edges = layout.y_edges();
    let x = any_gap_below(&x_edges, doubled);
    let y = any_gap_below(&y_edges, doubled);
    x || y
}

/// Whether some pair of consecutive values is less than `limit` apart.
fn any_gap_below(edges: &Vec<u32>, limit: u32) -> (found: bool)
    ensures
        found == has_gap_below(edges@, limit as int),
{
    let mut i: usize = 0;
    while i < edges.len() && i + 1 < edges.len()
        invariant
            i <= edges@.len(),
            forall|k: int| 0 <= k < i && k < edges@.len() - 1 ==> !(limit > #[trigger] gap(edges@, k)),
        decreases edges@.len() - i,
    {
        if (limit as i64) > (edges[i + 1] as i64) - (edges[i] as i64) {
            assert(limit > gap(edges@, i as int));
            return true;
        }
        i = i + 1;
    }
    false
}

} // verus!
