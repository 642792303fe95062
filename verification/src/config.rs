use vstd::prelude::*;

verus! {

/// An equal-sized grid used to derive seam coordinates.
#[derive(Clone, Copy, Debug, PartialEq, Eq, Structural)]
pub struct GridSpec {
    pub columns: u32,
    pub rows: u32,
}

impl Default for GridSpec {
    /// The standard four-quadrant layout.
    fn default() -> (grid: Self)
        ensures
            grid.columns == 2,
            grid.rows == 2,
    {
        GridSpec { columns: 2, rows: 2 }
    }
}

/// Either explicit boundaries or an equal grid.
#[derive(Clone, Debug)]
pub struct SeamSpec {
    pub x: Vec<u32>,
    pub y: Vec<u32>,
    pub grid: Option<GridSpec>,
}

impl Default for SeamSpec {
    /// No explicit seams and no grid.
    fn default() -> (spec: Self)
        ensures
            spec.x@.len() == 0,
            spec.y@.len() == 0,
            spec.grid is None,
    {
        SeamSpec { x: Vec::new(), y: Vec::new(), grid: None }
    }
}

/// Color transfer function used when converting encoded samples to linear light.
#[derive(Clone, Copy, Debug, PartialEq, Eq, Structural)]
pub enum TransferFunction {
    Srgb,
    Linear,
}

impl Default for TransferFunction {
    /// Encoded samples are sRGB unless stated otherwise.
    fn default() -> (transfer: Self)
        ensures
            transfer == TransferFunction::Srgb,
    {
        TransferFunction::Srgb
    }
}

} // verus!
