//! Plain values reported about an analyzed image.

use vstd::prelude::*;

use crate::text::{decimal_text, push_decimal};

verus! {

/// Direction of a seam line.
#[derive(Clone, Copy, Debug, PartialEq, Eq, Structural)]
pub enum Orientation {
    /// A vertical line at an X coordinate, between a left and a right tile.
    Vertical,
    /// A horizontal line at a Y coordinate, between a top and a bottom tile.
    Horizontal,
}

/// Dimensions and sample format of an analyzed image.
#[derive(Clone, Debug)]
pub struct ImageReport {
    pub width: u32,
    pub height: u32,
    pub channels: usize,
    pub bit_depth: String,
    pub transport: String,
}

/// `Accepted {accepted} of {total} boundary segments; ...`.
pub open spec fn partial_acceptance_text(accepted: nat, total: nat) -> Seq<char> {
    "Accepted "@ + decimal_text(accepted) + " of "@ + decimal_text(total)
        + " boundary segments; rejected segments were left unchanged."@
}

/// The warnings of a correction report, in order: how many boundary
/// segments were accepted (nothing when all were), whether the accepted
/// constraints leave some tile unconnected, and whether the local ramps of
/// a tile overlap.
pub open spec fn warning_texts(accepted: nat, total: nat, connected: bool, ramps_overlap: bool) -> Seq<
    Seq<char>,
> {
    let acceptance = if accepted == 0 {
        seq!["No boundary passed the confidence threshold; RGB samples were left unchanged."@]
    } else if accepted < total {
        seq![partial_acceptance_text(accepted, total)]
    } else {
        Seq::empty()
    };
    let connection = if accepted > 0 && !connected {
        seq![
            "Accepted constraints do not connect every tile; global tile gains were disabled while accepted full-resolution seam constraints remained active."@,
        ]
    } else {
        Seq::empty()
    };
    let overlap = if ramps_overlap {
        seq![
            "Local correction ramps overlap because blend width exceeds half a tile; the combined gain remains clamped."@,
        ]
    } else {
        Seq::empty()
    };
    acceptance + connection + overlap
}

/// The texts of a list of strings.
pub open spec fn texts(strings: Seq<String>) -> Seq<Seq<char>> {
    strings.map_values(|text: String| text@)
}

/// Warnings for a correction of which `accepted` of `total` boundary
/// segments passed the confidence threshold.
pub fn correction_warnings(accepted: usize, total: usize, connected: bool, ramps_overlap: bool) -> (warnings:
    Vec<String>)
    ensures
        texts(warnings@) == warning_texts(accepted as nat, total as nat, connected, ramps_overlap),
{
    let mut warnings: Vec<String> = Vec::new();
    if accepted == 0 {
        warnings.push(
            String::from_str(
                "No boundary passed the confidence threshold; RGB samples were left unchanged.",
            ),
        );
    } else if accepted < total {
        let mut text = String::from_str("Accepted ");
        push_decimal(&mut text, accepted);
        text.append(" of ");
        push_decimal(&mut text, total);
        text.append(" boundary segments; rejected segments were left unchanged.");
        assert(text@ =~= partial_acceptance_text(accepted as nat, total as nat));
        warnings.push(text);
    }
    if accepted > 0 && !connected {
        warnings.push(
            String::from_str(
                "Accepted constraints do not connect every tile; global tile gains were disabled while accepted full-resolution seam constraints remained active.",
            ),
        );
    }
    if ramps_overlap {
        warnings.push(
            String::from_str(
                "Local correction ramps overlap because blend width exceeds half a tile; the combined gain remains clamped.",
            ),
        );
    }
    assert(texts(warnings@) =~= warning_texts(accepted as nat, total as nat, connected, ramps_overlap));
    warnings
}

} // verus!
