//! Registration of the overlap renders used by the structural passes: where a
//! reference lies on the base image, how far from a join its stitch may be
//! searched, and which bands are compared at a stitch.

use vstd::prelude::*;

use vstd::math::{max, min};

use crate::text::{decimal_text, push_decimal};

verus! {

/// Placement of a registered reference on the base image.
#[derive(Clone, Copy, Debug, PartialEq, Eq, Structural)]
pub struct CrossGeometry {
    pub origin_x: u32,
    pub origin_y: u32,
    pub width: u32,
    pub height: u32,
}

/// Why a cross reference cannot be registered on the base image.
#[derive(Clone, Copy, Debug, PartialEq, Eq, Structural)]
pub enum CrossError {
    /// The landscape reference does not span the base width exactly.
    XcrossWidth { expected: u32, received: u32 },
    /// The landscape reference is not an even height of at least 32 pixels.
    XcrossHeight,
    /// Centered on the horizontal join, the landscape reference would extend above the base.
    XcrossAbove,
    /// Centered on the horizontal join, the landscape reference would extend below the base.
    XcrossBelow,
    /// The portrait reference does not span the base height exactly.
    YcrossHeight { expected: u32, received: u32 },
    /// The portrait reference is not an even width of at least 32 pixels.
    YcrossWidth,
    /// Centered on the vertical join, the portrait reference would extend left of the base.
    YcrossLeft,
    /// Centered on the vertical join, the portrait reference would extend right of the base.
    YcrossRight,
}

/// The explanation reported for each refused cross reference.
pub open spec fn cross_error_text(error: CrossError) -> Seq<char> {
    match error {
        CrossError::XcrossWidth { expected, received } => "--xcross must span the base width exactly ("@
            + decimal_text(expected as nat) + "px); received "@ + decimal_text(received as nat) + "px"@,
        CrossError::XcrossHeight => "--xcross height must be an even value of at least 32 pixels"@,
        CrossError::XcrossAbove => "--xcross cannot be centered on --y without extending above the base"@,
        CrossError::XcrossBelow => "--xcross cannot be centered on --y without extending below the base"@,
        CrossError::YcrossHeight { expected, received } => "--ycross must span the base height exactly ("@
            + decimal_text(expected as nat) + "px); received "@ + decimal_text(received as nat) + "px"@,
        CrossError::YcrossWidth => "--ycross width must be an even value of at least 32 pixels"@,
        CrossError::YcrossLeft => "--ycross cannot be centered on --x without extending left of the base"@,
        CrossError::YcrossRight => "--ycross cannot be centered on --x without extending right of the base"@,
    }
}

/// `"{prefix}{expected}px); received {received}px"`.
fn spans_message(prefix: &str, expected: u32, received: u32) -> (text: String)
    ensures
        text@ == prefix@ + decimal_text(expected as nat) + "px); received "@ + decimal_text(
            received as nat,
        ) + "px"@,
{
    let mut text = String::from_str(prefix);
    push_decimal(&mut text, expected as usize);
    text.append("px); received ");
    push_decimal(&mut text, received as usize);
    text.append("px");
    assert(text@ =~= prefix@ + decimal_text(expected as nat) + "px); received "@ + decimal_text(
        received as nat,
    ) + "px"@);
    text
}

impl CrossError {
    /// Human-readable explanation of the refusal.
    pub fn message(&self) -> (text: String)
        ensures
            text@ == cross_error_text(*self),
    {
        match self {
            CrossError::XcrossWidth { expected, received } => spans_message(
                "--xcross must span the base width exactly (",
                *expected,
                *received,
            ),
            CrossError::XcrossHeight => String::from_str(
                "--xcross height must be an even value of at least 32 pixels",
            ),
            CrossError::XcrossAbove => String::from_str(
                "--xcross cannot be centered on --y without extending above the base",
            ),
            CrossError::XcrossBelow => String::from_str(
                "--xcross cannot be centered on --y without extending below the base",
            ),
            CrossError::YcrossHeight { expected, received } => spans_message(
                "--ycross must span the base height exactly (",
                *expected,
                *received,
            ),
            CrossError::YcrossWidth => String::from_str(
                "--ycross width must be an even value of at least 32 pixels",
            ),
            CrossError::YcrossLeft => String::from_str(
                "--ycross cannot be centered on --x without extending left of the base",
            ),
            CrossError::YcrossRight => String::from_str(
                "--ycross cannot be centered on --x without extending right of the base",
            ),
        }
    }
}

/// The landscape reference registered across the horizontal join at
/// `seam_y`, or why it cannot be.
pub open spec fn landscape_outcome(
    base_width: u32,
    base_height: u32,
    seam_y: u32,
    width: u32,
    height: u32,
) -> Result<CrossGeometry, CrossError> {
    if width != base_width {
        Err(CrossError::XcrossWidth { expected: base_width, received: width })
    } else if !(height >= 32 && height % 2 == 0) {
        Err(CrossError::XcrossHeight)
    } else if seam_y < height / 2 {
        Err(CrossError::XcrossAbove)
    } else if seam_y - height / 2 + height > base_height {
        Err(CrossError::XcrossBelow)
    } else {
        Ok(CrossGeometry { origin_x: 0, origin_y: (seam_y - height / 2) as u32, width, height })
    }
}

/// The portrait reference registered across the vertical join at `seam_x`,
/// or why it cannot be.
pub open spec fn portrait_outcome(
    base_width: u32,
    base_height: u32,
    seam_x: u32,
    width: u32,
    height: u32,
) -> Result<CrossGeometry, CrossError> {
    if height != base_height {
        Err(CrossError::YcrossHeight { expected: base_height, received: height })
    } else if !(width >= 32 && width % 2 == 0) {
        Err(CrossError::YcrossWidth)
    } else if seam_x < width / 2 {
        Err(CrossError::YcrossLeft)
    } else if seam_x - width / 2 + width > base_width {
        Err(CrossError::YcrossRight)
    } else {
        Ok(CrossGeometry { origin_x: (seam_x - width / 2) as u32, origin_y: 0, width, height })
    }
}

/// Register the landscape reference (full base width, even height) so that
/// its middle row boundary lies exactly on the horizontal join. Nothing is
/// resized or shifted to make it fit.
pub fn landscape_geometry(base_width: u32, base_height: u32, seam_y: u32, reference: (u32, u32)) -> (result: Result<CrossGeometry, CrossError>)
    ensures
        result == landscape_outcome(base_width, base_height, seam_y, reference.0, reference.1),
        result is Ok <==> (reference.0 == base_width && reference.1 >= 32 && reference.1 % 2 == 0
            && reference.1 / 2 <= seam_y && seam_y - reference.1 / 2 + reference.1 <= base_height),
        result matches Ok(g) ==> g.origin_x == 0 && g.origin_y + g.height / 2 == seam_y
            && g.width == reference.0 && g.height == reference.1,
{
    let (width, height) = reference;
    if width != base_width {
        return Err(CrossError::XcrossWidth { expected: base_width, received: width });
    }
    if !(height >= 32 && height % 2 == 0) {
        return Err(CrossError::XcrossHeight);
    }
    let half = height / 2;
    if seam_y < half {
        return Err(CrossError::XcrossAbove);
    }
    let origin_y = seam_y - half;
    if origin_y as u64 + height as u64 > base_height as u64 {
        return Err(CrossError::XcrossBelow);
    }
    Ok(CrossGeometry { origin_x: 0, origin_y, width, height })
}

/// Register the portrait reference (full base height, even width) so that
/// its middle column boundary lies exactly on the vertical join.
pub fn portrait_geometry(base_width: u32, base_height: u32, seam_x: u32, reference: (u32, u32)) -> (result: Result<CrossGeometry, CrossError>)
    ensures
        result == portrait_outcome(base_width, base_height, seam_x, reference.0, reference.1),
        result is Ok <==> (reference.1 == base_height && reference.0 >= 32 && reference.0 % 2 == 0
            && reference.0 / 2 <= seam_x && seam_x - reference.0 / 2 + reference.0 <= base_width),
        result matches Ok(g) ==> g.origin_y == 0 && g.origin_x + g.width / 2 == seam_x
            && g.width == reference.0 && g.height == reference.1,
{
    let (width, height) = reference;
    if height != base_height {
        return Err(CrossError::YcrossHeight { expected: base_height, received: height });
    }
    if !(width >= 32 && width % 2 == 0) {
        return Err(CrossError::YcrossWidth);
    }
    let half = width / 2;
    if seam_x < half {
        return Err(CrossError::YcrossLeft);
    }
    let origin_x = seam_x - half;
    if origin_x as u64 + width as u64 > base_width as u64 {
        return Err(CrossError::YcrossRight);
    }
    Ok(CrossGeometry { origin_x, origin_y: 0, width, height })
}

/// A registered cross reference is centered exactly on its join and lies
/// entirely on the base image.
pub proof fn lemma_cross_references_are_centered(
    base_width: u32,
    base_height: u32,
    seam: u32,
    width: u32,
    height: u32,
)
    ensures
        landscape_outcome(base_width, base_height, seam, width, height) matches Ok(g) ==> {
            &&& g.origin_y + g.height / 2 == seam
            &&& g.origin_y + g.height <= base_height
            &&& g.origin_x == 0 && g.width == base_width
        },
        portrait_outcome(base_width, base_height, seam, width, height) matches Ok(g) ==> {
            &&& g.origin_x + g.width / 2 == seam
            &&& g.origin_x + g.width <= base_width
            &&& g.origin_y == 0 && g.height == base_height
        },
{
}

/// A cross reference is registered exactly when it fits: the landscape
/// reference is accepted whenever it spans the base width, has an even
/// height of at least 32, and centred on the join reaches neither above nor
/// below the base; it then starts at the left edge, half its height above
/// the join. Likewise for the portrait reference across the vertical join.
pub proof fn lemma_cross_references_that_fit_are_accepted(
    base_width: u32,
    base_height: u32,
    seam: u32,
    width: u32,
    height: u32,
)
    ensures
        landscape_outcome(base_width, base_height, seam, width, height) is Ok <==> (width
            == base_width && height >= 32 && height % 2 == 0 && height / 2 <= seam && seam
            - height / 2 + height <= base_height),
        (width == base_width && height >= 32 && height % 2 == 0 && height / 2 <= seam && seam
            - height / 2 + height <= base_height) ==> landscape_outcome(
            base_width,
            base_height,
            seam,
            width,
            height,
        ) == Ok::<CrossGeometry, CrossError>(
            CrossGeometry { origin_x: 0, origin_y: (seam - height / 2) as u32, width, height },
        ),
        portrait_outcome(base_width, base_height, seam, width, height) is Ok <==> (height
            == base_height && width >= 32 && width % 2 == 0 && width / 2 <= seam && seam - width
            / 2 + width <= base_width),
        (height == base_height && width >= 32 && width % 2 == 0 && width / 2 <= seam && seam
            - width / 2 + width <= base_width) ==> portrait_outcome(
            base_width,
            base_height,
            seam,
            width,
            height,
        ) == Ok::<CrossGeometry, CrossError>(
            CrossGeometry { origin_x: (seam - width / 2) as u32, origin_y: 0, width, height },
        ),
{
}

/// Why no stitch search range exists.
#[derive(Clone, Copy, Debug, PartialEq, Eq, Structural)]
pub enum SearchError {
    /// The half-span is too narrow to leave the safety margin.
    TooNarrow,
    /// The search range would be empty.
    Empty,
}

/// Which reference a stitch search serves.
#[derive(Clone, Copy, Debug, PartialEq, Eq, Structural)]
pub enum SearchReference {
    /// A cross reference, searched by `match_search_bounds`.
    Cross,
    /// The center reference, searched by `radial_search_bounds`.
    Center,
}

/// The explanation reported when no search range exists for `reference`.
pub open spec fn search_error_text(error: SearchError, reference: SearchReference) -> Seq<char> {
    match (error, reference) {
        (SearchError::TooNarrow, SearchReference::Cross) => "cross-reference half-span is too narrow for a stitch search"@,
        (SearchError::Empty, SearchReference::Cross) => "cross-reference stitch search is empty"@,
        (SearchError::TooNarrow, SearchReference::Center) => "center-reference half-span is too narrow for radial analysis"@,
        (SearchError::Empty, SearchReference::Center) => "center-reference radial search is empty"@,
    }
}

impl SearchError {
    /// Human-readable explanation of the refusal for the given reference.
    pub fn message(&self, reference: SearchReference) -> (text: &'static str)
        ensures
            text@ == search_error_text(*self, reference),
    {
        match (self, reference) {
            (SearchError::TooNarrow, SearchReference::Cross) => "cross-reference half-span is too narrow for a stitch search",
            (SearchError::Empty, SearchReference::Cross) => "cross-reference stitch search is empty",
            (SearchError::TooNarrow, SearchReference::Center) => "center-reference half-span is too narrow for radial analysis",
            (SearchError::Empty, SearchReference::Center) => "center-reference radial search is empty",
        }
    }
}

/// `value` limited to `low..=high`.
pub open spec fn clamp(value: int, low: int, high: int) -> int {
    if value < low {
        low
    } else if value > high {
        high
    } else {
        value
    }
}

/// `(minimum, maximum, step)` of a stitch search over a half-span whose
/// safety margin is at least `least_margin`; `minimum_cap` limits how close
/// the minimum may come to the maximum.
pub open spec fn search_outcome(half_span: u32, least_margin: int, close_to_maximum: bool) -> Result<
    (u32, u32, u32),
    SearchError,
> {
    let margin = clamp(half_span as int / 64, least_margin, 64);
    if half_span < margin + 1 {
        Err(SearchError::TooNarrow)
    } else {
        let maximum = half_span - (margin + 1);
        let cap = if close_to_maximum {
            maximum
        } else {
            max(maximum - 1, 0)
        };
        let minimum = min(max(half_span as int / 4, 8), cap);
        if minimum >= maximum {
            Err(SearchError::Empty)
        } else {
            Ok(
                (
                    minimum as u32,
                    maximum as u32,
                    if maximum - minimum >= 1024 {
                        2u32
                    } else {
                        1u32
                    },
                ),
            )
        }
    }
}

/// Distances from a join at which a cross reference's stitch is searched:
/// from a quarter of the half-span (at least 8) up to a small margin short
/// of the reference edge, in steps of two when the range exceeds 1024.
pub fn match_search_bounds(half_span: u32) -> (result: Result<(u32, u32, u32), SearchError>)
    ensures
        result == search_outcome(half_span, 4, true),
{
    let margin = clamp_u32(half_span / 64, 4, 64);
    if half_span < margin + 1 {
        return Err(SearchError::TooNarrow);
    }
    let maximum = half_span - (margin + 1);
    let quarter = if half_span / 4 > 8 {
        half_span / 4
    } else {
        8
    };
    let minimum = if quarter < maximum {
        quarter
    } else {
        maximum
    };
    if minimum >= maximum {
        return Err(SearchError::Empty);
    }
    let step = if maximum - minimum >= 1024 {
        2
    } else {
        1
    };
    Ok((minimum, maximum, step))
}

/// Half-width of the bands compared at a structural boundary.
pub const BOUNDARY_SCAN_RADIUS: u32 = 8;

/// Radii at which the center reference's star boundary is searched: the
/// margin leaves room for two boundary bands beyond the largest radius.
pub fn radial_search_bounds(half_span: u32) -> (result: Result<(u32, u32, u32), SearchError>)
    ensures
        result == search_outcome(half_span, 2 * BOUNDARY_SCAN_RADIUS + 1, false),
{
    let margin = clamp_u32(half_span / 64, BOUNDARY_SCAN_RADIUS * 2 + 1, 64);
    if half_span < margin + 1 {
        return Err(SearchError::TooNarrow);
    }
    let maximum = half_span - (margin + 1);
    let quarter = if half_span / 4 > 8 {
        half_span / 4
    } else {
        8
    };
    let cap = if maximum >= 1 {
        maximum - 1
    } else {
        0
    };
    let minimum = if quarter < cap {
        quarter
    } else {
        cap
    };
    if minimum >= maximum {
        return Err(SearchError::Empty);
    }
    let step = if maximum - minimum >= 1024 {
        2
    } else {
        1
    };
    Ok((minimum, maximum, step))
}

/// Every searched stitch distance leaves the reference strictly inside its
/// half-span, and at the largest radius both boundary bands still fit.
pub proof fn lemma_search_stays_inside(half_span: u32)
    ensures
        search_outcome(half_span, 4, true) matches Ok((minimum, maximum, step)) ==> {
            &&& minimum < maximum
            &&& maximum + 5 <= half_span
            &&& step == 1 || step == 2
        },
        search_outcome(half_span, 2 * BOUNDARY_SCAN_RADIUS + 1, false) matches Ok(
            (minimum, maximum, step),
        ) ==> {
            &&& minimum < maximum
            &&& maximum + 2 * BOUNDARY_SCAN_RADIUS < half_span
            &&& step == 1 || step == 2
        },
{
}

fn clamp_u32(value: u32, low: u32, high: u32) -> (clamped: u32)
    requires
        low <= high,
    ensures
        clamped == clamp(value as int, low as int, high as int),
{
    if value < low {
        low
    } else if value > high {
        high
    } else {
        value
    }
}

/// Which side of a join a structural boundary lies on.
#[derive(Clone, Copy, Debug, PartialEq, Eq, Structural)]
pub enum Side {
    /// Left of a vertical join or above a horizontal one.
    Negative,
    /// Right of a vertical join or below a horizontal one.
    Positive,
}

/// The outer-far, outer-near, inner-near and inner-far bands at a
/// structural boundary `split`. Outer bands lie away from the join (on the
/// authoritative base), inner bands toward it (on the reference).
pub open spec fn ranges_at(split: int, side: Side, radius: int) -> Seq<(int, int)> {
    match side {
        Side::Negative => seq![
            (split - 2 * radius, split - radius),
            (split - radius, split),
            (split, split + radius),
            (split + radius, split + 2 * radius),
        ],
        Side::Positive => seq![
            (split + radius, split + 2 * radius),
            (split, split + radius),
            (split - radius, split),
            (split - 2 * radius, split - radius),
        ],
    }
}

/// The four bands at `split`, or `None` when one would leave the `u32`
/// coordinate range.
pub fn boundary_ranges(split: u32, side: Side, radius: u32) -> (ranges: Option<[(u32, u32); 4]>)
    ensures
        match ranges {
            Some(r) => {
                &&& 2 * radius <= split
                &&& split + 2 * radius <= u32::MAX
                &&& forall|k: int|
                    0 <= k < 4 ==> (r[k].0 as int, r[k].1 as int) == #[trigger] ranges_at(
                        split as int,
                        side,
                        radius as int,
                    )[k]
            },
            None => 2 * radius > u32::MAX || 2 * radius > split || split + 2 * radius > u32::MAX,
        },
{
    let twice = match radius.checked_mul(2) {
        Some(t) => t,
        None => {
            return None;
        },
    };
    if split < twice {
        return None;
    }
    let before_far = split - twice;
    let before_near = split - radius;
    let after_near = match split.checked_add(radius) {
        Some(v) => v,
        None => {
            return None;
        },
    };
    let after_far = match split.checked_add(twice) {
        Some(v) => v,
        None => {
            return None;
        },
    };
    let ranges = match side {
        Side::Negative => [
            (before_far, before_near),
            (before_near, split),
            (split, after_near),
            (after_near, after_far),
        ],
        Side::Positive => [
            (after_near, after_far),
            (split, after_near),
            (before_near, split),
            (before_far, before_near),
        ],
    };
    Some(ranges)
}

/// Placement of the registered center reference.
#[derive(Clone, Copy, Debug, PartialEq, Eq, Structural)]
pub struct CenterGeometry {
    pub origin_x: u32,
    pub origin_y: u32,
    pub width: u32,
    pub height: u32,
    /// The requested center: the first column right of the vertical join.
    /// The symmetric pixel-space center lies half a pixel before it.
    pub center_x: u32,
    /// The requested center: the first row below the horizontal join.
    pub center_y: u32,
}

/// Why the center reference cannot be registered.
#[derive(Clone, Copy, Debug, PartialEq, Eq, Structural)]
pub enum CenterError {
    /// The reference is not square.
    NotSquare { width: u32, height: u32 },
    /// The reference is not an even size of at least 64 pixels.
    TooSmall,
    /// The requested center does not lie strictly inside the base image.
    CenterOutside,
    /// Centered on the requested point, the reference would extend left of the base.
    ExtendsLeft,
    /// Centered on the requested point, the reference would extend above the base.
    ExtendsAbove,
    /// Centered on the requested point, the reference would extend right of the base.
    ExtendsRight,
    /// Centered on the requested point, the reference would extend below the base.
    ExtendsBelow,
}

/// The explanation reported for each refused center reference.
pub open spec fn center_error_text(error: CenterError) -> Seq<char> {
    match error {
        CenterError::NotSquare { width, height } => "--center must be square; received "@ + decimal_text(
            width as nat,
        ) + "x"@ + decimal_text(height as nat),
        CenterError::TooSmall => "--center dimensions must be an even value of at least 64 pixels"@,
        CenterError::CenterOutside => "--x and --y must lie inside the base image"@,
        CenterError::ExtendsLeft => "--center cannot be centered on --x without extending left of the base"@,
        CenterError::ExtendsAbove => "--center cannot be centered on --y without extending above the base"@,
        CenterError::ExtendsRight => "--center cannot be centered on --x without extending right of the base"@,
        CenterError::ExtendsBelow => "--center cannot be centered on --y without extending below the base"@,
    }
}

impl CenterError {
    /// Human-readable explanation of the refusal.
    pub fn message(&self) -> (text: String)
        ensures
            text@ == center_error_text(*self),
    {
        match self {
            CenterError::NotSquare { width, height } => {
                let mut text = String::from_str("--center must be square; received ");
                push_decimal(&mut text, *width as usize);
                text.append("x");
                push_decimal(&mut text, *height as usize);
                assert(text@ =~= center_error_text(*self));
                text
            },
            CenterError::TooSmall => String::from_str(
                "--center dimensions must be an even value of at least 64 pixels",
            ),
            CenterError::CenterOutside => String::from_str("--x and --y must lie inside the base image"),
            CenterError::ExtendsLeft => String::from_str(
                "--center cannot be centered on --x without extending left of the base",
            ),
            CenterError::ExtendsAbove => String::from_str(
                "--center cannot be centered on --y without extending above the base",
            ),
            CenterError::ExtendsRight => String::from_str(
                "--center cannot be centered on --x without extending right of the base",
            ),
            CenterError::ExtendsBelow => String::from_str(
                "--center cannot be centered on --y without extending below the base",
            ),
        }
    }
}

/// The center reference registered around `center_x`, `center_y`, or why
/// it cannot be.
pub open spec fn center_outcome(
    base_width: u32,
    base_height: u32,
    center_x: u32,
    center_y: u32,
    width: u32,
    height: u32,
) -> Result<CenterGeometry, CenterError> {
    if width != height {
        Err(CenterError::NotSquare { width, height })
    } else if !(width >= 64 && width % 2 == 0) {
        Err(CenterError::TooSmall)
    } else if !(center_x > 0 && center_x < base_width && center_y > 0 && center_y < base_height) {
        Err(CenterError::CenterOutside)
    } else if center_x < width / 2 {
        Err(CenterError::ExtendsLeft)
    } else if center_y < width / 2 {
        Err(CenterError::ExtendsAbove)
    } else if center_x - width / 2 + width > base_width {
        Err(CenterError::ExtendsRight)
    } else if center_y - width / 2 + height > base_height {
        Err(CenterError::ExtendsBelow)
    } else {
        Ok(
            CenterGeometry {
                origin_x: (center_x - width / 2) as u32,
                origin_y: (center_y - width / 2) as u32,
                width,
                height,
                center_x,
                center_y,
            },
        )
    }
}

/// A registered center reference is the requested square, centred on the
/// requested point and lying on the base; and every even square of at
/// least 64 pixels around a point strictly inside the base that fits on
/// the base is registered there.
pub proof fn lemma_center_reference_is_centered(
    base_width: u32,
    base_height: u32,
    center_x: u32,
    center_y: u32,
    width: u32,
    height: u32,
)
    ensures
        center_outcome(base_width, base_height, center_x, center_y, width, height) matches Ok(g)
            ==> {
            &&& g.width == width && g.height == height && g.width == g.height
            &&& g.origin_x + g.width / 2 == center_x
            &&& g.origin_y + g.height / 2 == center_y
            &&& g.origin_x + g.width <= base_width
            &&& g.origin_y + g.height <= base_height
            &&& g.center_x == center_x && g.center_y == center_y
        },
        (width == height && width >= 64 && width % 2 == 0 && 0 < center_x < base_width && 0
            < center_y < base_height && width / 2 <= center_x && width / 2 <= center_y && center_x
            - width / 2 + width <= base_width && center_y - height / 2 + height <= base_height)
            ==> center_outcome(base_width, base_height, center_x, center_y, width, height)
            is Ok,
{
}

/// Register an even, square center reference so that its middle lies on
/// the requested seam intersection. Nothing is resized.
pub fn center_geometry(
    base_width: u32,
    base_height: u32,
    center_x: u32,
    center_y: u32,
    reference: (u32, u32),
) -> (result: Result<CenterGeometry, CenterError>)
    ensures
        result == center_outcome(
            base_width,
            base_height,
            center_x,
            center_y,
            reference.0,
            reference.1,
        ),
        result matches Ok(g) ==> g.origin_x + g.width / 2 == center_x && g.origin_y + g.height / 2
            == center_y && g.origin_x + g.width <= base_width && g.origin_y + g.height
            <= base_height && g.width == reference.0 && g.height == reference.1,
        (reference.0 == reference.1 && reference.0 >= 64 && reference.0 % 2 == 0 && 0 < center_x
            < base_width && 0 < center_y < base_height && reference.0 / 2 <= center_x
            && reference.0 / 2 <= center_y && center_x - reference.0 / 2 + reference.0
            <= base_width && center_y - reference.1 / 2 + reference.1 <= base_height)
            ==> result is Ok,
{
    let (width, height) = reference;
    if width != height {
        return Err(CenterError::NotSquare { width, height });
    }
    if !(width >= 64 && width % 2 == 0) {
        return Err(CenterError::TooSmall);
    }
    if !(center_x > 0 && center_x < base_width && center_y > 0 && center_y < base_height) {
        return Err(CenterError::CenterOutside);
    }
    let half = width / 2;
    if center_x < half {
        return Err(CenterError::ExtendsLeft);
    }
    let origin_x = center_x - half;
    if center_y < half {
        return Err(CenterError::ExtendsAbove);
    }
    let origin_y = center_y - half;
    if origin_x as u64 + width as u64 > base_width as u64 {
        return Err(CenterError::ExtendsRight);
    }
    if origin_y as u64 + height as u64 > base_height as u64 {
        return Err(CenterError::ExtendsBelow);
    }
    Ok(CenterGeometry { origin_x, origin_y, width, height, center_x, center_y })
}

} // verus!
