//! How a border mode treats the elevation beyond the grid edge.

use vstd::prelude::*;
use crate::types::BorderMode;

verus! {

/// How the border offset combines with the elevation.
#[derive(Clone, Copy, Debug, PartialEq, Eq, Structural)]
pub enum Border {
    /// Inside the grid, or a border that maps back into it: no offset.
    Inside,
    /// `Keep`: the offset is added to the held elevation.
    Add,
    /// `Zero`: the offset replaces the elevation.
    Replace,
}

/// The offset treatment of a query beyond a border in `mode`.
pub fn border_kind(mode: BorderMode) -> (b: Border)
    ensures
        b == (match mode {
            BorderMode::Zero => Border::Replace,
            BorderMode::Keep => Border::Add,
            _ => Border::Inside,
        }),
{
    match mode {
        BorderMode::Zero => Border::Replace,
        BorderMode::Keep => Border::Add,
        _ => Border::Inside,
    }
}

} // verus!
