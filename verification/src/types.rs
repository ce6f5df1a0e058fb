//! Small enumerations shared by the header reader and the evaluator.

use vstd::prelude::*;

verus! {

/// What a query returns beyond the grid edge along one axis.
///
/// Matches the C-API's `dCrgBorderMode*` values and the `BORDER_MODE_U`/`BORDER_MODE_V`
/// file options, which use the numbers in parentheses.
#[derive(Clone, Copy, Debug, PartialEq, Eq, Structural)]
pub enum BorderMode {
    /// (0) No surface: queries return no value.
    Refuse,
    /// (1) Grid elevation is zero.
    Zero,
    /// (2) The value at the nearest edge continues outward.
    Keep,
    /// (3) The grid repeats.
    Repeat,
    /// (4) The grid repeats, mirrored at each edge.
    Reflect,
}

/// The file and C-API number of a border mode.
pub open spec fn border_mode_code(mode: BorderMode) -> int {
    match mode {
        BorderMode::Refuse => 0,
        BorderMode::Zero => 1,
        BorderMode::Keep => 2,
        BorderMode::Repeat => 3,
        BorderMode::Reflect => 4,
    }
}

/// The border mode with number `code`, if any.
pub open spec fn border_mode_from(code: int) -> Option<BorderMode> {
    if code == 0 {
        Some(BorderMode::Refuse)
    } else if code == 1 {
        Some(BorderMode::Zero)
    } else if code == 2 {
        Some(BorderMode::Keep)
    } else if code == 3 {
        Some(BorderMode::Repeat)
    } else if code == 4 {
        Some(BorderMode::Reflect)
    } else {
        None
    }
}

impl BorderMode {
    /// The mode with number `code`, or `None` outside 0 to 4.
    pub fn from_code(code: i64) -> (mode: Option<Self>)
        ensures
            mode == border_mode_from(code as int),
            mode is Some <==> 0 <= code <= 4,
            mode matches Some(m) ==> border_mode_code(m) == code,
    {
        match code {
            0 => Some(Self::Refuse),
            1 => Some(Self::Zero),
            2 => Some(Self::Keep),
            3 => Some(Self::Repeat),
            4 => Some(Self::Reflect),
            _ => None,
        }
    }
}

/// Treatment of NaN grid values, from `GRID_NAN_MODE`.
#[derive(Clone, Copy, Debug, PartialEq, Eq, Structural)]
pub enum NanMode {
    /// (0) NaN values stay.
    Keep,
    /// (1) NaN values become the NaN offset.
    SetZero,
    /// (2) NaN values take the neighbouring value, plus the NaN offset once.
    KeepLast,
}

/// The file number of a NaN mode.
pub open spec fn nan_mode_code(mode: NanMode) -> int {
    match mode {
        NanMode::Keep => 0,
        NanMode::SetZero => 1,
        NanMode::KeepLast => 2,
    }
}

/// The NaN mode with number `code`, if any.
pub open spec fn nan_mode_from(code: int) -> Option<NanMode> {
    if code == 0 {
        Some(NanMode::Keep)
    } else if code == 1 {
        Some(NanMode::SetZero)
    } else if code == 2 {
        Some(NanMode::KeepLast)
    } else {
        None
    }
}

impl NanMode {
    /// The mode with number `code`, or `None` outside 0 to 2.
    pub fn from_code(code: i64) -> (mode: Option<Self>)
        ensures
            mode == nan_mode_from(code as int),
            mode is Some <==> 0 <= code <= 2,
            mode matches Some(m) ==> nan_mode_code(m) == code,
    {
        match code {
            0 => Some(Self::Keep),
            1 => Some(Self::SetZero),
            2 => Some(Self::KeepLast),
            _ => None,
        }
    }
}

} // verus!
