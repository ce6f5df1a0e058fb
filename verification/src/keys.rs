//! Keys of the `$ROAD_CRG`, `$ROAD_CRG_OPTS`, and `$ROAD_CRG_MODS` header blocks that hold a
//! number, and where each keeps its value.

use vstd::prelude::*;
use vstd::string::StringSliceAdditionalSpecFns;
use crate::text::same_bytes;

verus! {

/// A `$ROAD_CRG` key.
#[derive(Clone, Copy, Debug, PartialEq, Eq, Structural)]
pub enum RoadKey {
    /// `REFERENCE_LINE_START_U`
    StartU,
    /// `REFERENCE_LINE_START_X`
    StartX,
    /// `REFERENCE_LINE_START_Y`
    StartY,
    /// `REFERENCE_LINE_START_Z`
    StartZ,
    /// `REFERENCE_LINE_START_PHI`
    StartPhi,
    /// `REFERENCE_LINE_START_B`
    StartBank,
    /// `REFERENCE_LINE_START_S`
    StartSlope,
    /// `REFERENCE_LINE_END_U`
    EndU,
    /// `REFERENCE_LINE_END_X`
    EndX,
    /// `REFERENCE_LINE_END_Y`
    EndY,
    /// `REFERENCE_LINE_END_Z`
    EndZ,
    /// `REFERENCE_LINE_END_PHI`
    EndPhi,
    /// `REFERENCE_LINE_END_B`
    EndBank,
    /// `REFERENCE_LINE_END_S`
    EndSlope,
    /// `REFERENCE_LINE_INCREMENT`
    UIncrement,
    /// `LONG_SECTION_V_RIGHT`
    VRight,
    /// `LONG_SECTION_V_LEFT`
    VLeft,
    /// `LONG_SECTION_V_INCREMENT`
    VIncrement,
    /// `REFERENCE_LINE_OFFSET_X`
    OffsetX,
    /// `REFERENCE_LINE_OFFSET_Y`
    OffsetY,
    /// `REFERENCE_LINE_OFFSET_Z`
    OffsetZ,
    /// `REFERENCE_LINE_OFFSET_PHI`
    OffsetPhi,
}

/// Number of [`RoadKey`] values.
pub const ROAD_KEYS: usize = 22;

impl RoadKey {
    /// Position of the key's slot.
    pub open spec fn index(self) -> int {
        match self {
            RoadKey::StartU => 0,
            RoadKey::StartX => 1,
            RoadKey::StartY => 2,
            RoadKey::StartZ => 3,
            RoadKey::StartPhi => 4,
            RoadKey::StartBank => 5,
            RoadKey::StartSlope => 6,
            RoadKey::EndU => 7,
            RoadKey::EndX => 8,
            RoadKey::EndY => 9,
            RoadKey::EndZ => 10,
            RoadKey::EndPhi => 11,
            RoadKey::EndBank => 12,
            RoadKey::EndSlope => 13,
            RoadKey::UIncrement => 14,
            RoadKey::VRight => 15,
            RoadKey::VLeft => 16,
            RoadKey::VIncrement => 17,
            RoadKey::OffsetX => 18,
            RoadKey::OffsetY => 19,
            RoadKey::OffsetZ => 20,
            RoadKey::OffsetPhi => 21,
        }
    }

    /// The key's name in lower case.
    pub open spec fn name(self) -> Seq<u8> {
        match self {
            RoadKey::StartU => "reference_line_start_u".spec_bytes(),
            RoadKey::StartX => "reference_line_start_x".spec_bytes(),
            RoadKey::StartY => "reference_line_start_y".spec_bytes(),
            RoadKey::StartZ => "reference_line_start_z".spec_bytes(),
            RoadKey::StartPhi => "reference_line_start_phi".spec_bytes(),
            RoadKey::StartBank => "reference_line_start_b".spec_bytes(),
            RoadKey::StartSlope => "reference_line_start_s".spec_bytes(),
            RoadKey::EndU => "reference_line_end_u".spec_bytes(),
            RoadKey::EndX => "reference_line_end_x".spec_bytes(),
            RoadKey::EndY => "reference_line_end_y".spec_bytes(),
            RoadKey::EndZ => "reference_line_end_z".spec_bytes(),
            RoadKey::EndPhi => "reference_line_end_phi".spec_bytes(),
            RoadKey::EndBank => "reference_line_end_b".spec_bytes(),
            RoadKey::EndSlope => "reference_line_end_s".spec_bytes(),
            RoadKey::UIncrement => "reference_line_increment".spec_bytes(),
            RoadKey::VRight => "long_section_v_right".spec_bytes(),
            RoadKey::VLeft => "long_section_v_left".spec_bytes(),
            RoadKey::VIncrement => "long_section_v_increment".spec_bytes(),
            RoadKey::OffsetX => "reference_line_offset_x".spec_bytes(),
            RoadKey::OffsetY => "reference_line_offset_y".spec_bytes(),
            RoadKey::OffsetZ => "reference_line_offset_z".spec_bytes(),
            RoadKey::OffsetPhi => "reference_line_offset_phi".spec_bytes(),
        }
    }

    /// Position of the key's slot.
    pub fn slot(self) -> (i: usize)
        ensures
            i == self.index(),
            i < ROAD_KEYS,
    {
        match self {
            RoadKey::StartU => 0,
            RoadKey::StartX => 1,
            RoadKey::StartY => 2,
            RoadKey::StartZ => 3,
            RoadKey::StartPhi => 4,
            RoadKey::StartBank => 5,
            RoadKey::StartSlope => 6,
            RoadKey::EndU => 7,
            RoadKey::EndX => 8,
            RoadKey::EndY => 9,
            RoadKey::EndZ => 10,
            RoadKey::EndPhi => 11,
            RoadKey::EndBank => 12,
            RoadKey::EndSlope => 13,
            RoadKey::UIncrement => 14,
            RoadKey::VRight => 15,
            RoadKey::VLeft => 16,
            RoadKey::VIncrement => 17,
            RoadKey::OffsetX => 18,
            RoadKey::OffsetY => 19,
            RoadKey::OffsetZ => 20,
            RoadKey::OffsetPhi => 21,
        }
    }

    /// The key named `name` (lower case), in the order the C-API checks them.
    pub open spec fn lookup(name: Seq<u8>) -> Option<Self> {
        if name == RoadKey::StartU.name() {
            Some(RoadKey::StartU)
        } else if name == RoadKey::StartX.name() {
            Some(RoadKey::StartX)
        } else if name == RoadKey::StartY.name() {
            Some(RoadKey::StartY)
        } else if name == RoadKey::StartZ.name() {
            Some(RoadKey::StartZ)
        } else if name == RoadKey::StartPhi.name() {
            Some(RoadKey::StartPhi)
        } else if name == RoadKey::StartBank.name() {
            Some(RoadKey::StartBank)
        } else if name == RoadKey::StartSlope.name() {
            Some(RoadKey::StartSlope)
        } else if name == RoadKey::EndU.name() {
            Some(RoadKey::EndU)
        } else if name == RoadKey::EndX.name() {
            Some(RoadKey::EndX)
        } else if name == RoadKey::EndY.name() {
            Some(RoadKey::EndY)
        } else if name == RoadKey::EndZ.name() {
            Some(RoadKey::EndZ)
        } else if name == RoadKey::EndPhi.name() {
            Some(RoadKey::EndPhi)
        } else if name == RoadKey::EndBank.name() {
            Some(RoadKey::EndBank)
        } else if name == RoadKey::EndSlope.name() {
            Some(RoadKey::EndSlope)
        } else if name == RoadKey::UIncrement.name() {
            Some(RoadKey::UIncrement)
        } else if name == RoadKey::VRight.name() {
            Some(RoadKey::VRight)
        } else if name == RoadKey::VLeft.name() {
            Some(RoadKey::VLeft)
        } else if name == RoadKey::VIncrement.name() {
            Some(RoadKey::VIncrement)
        } else if name == RoadKey::OffsetX.name() {
            Some(RoadKey::OffsetX)
        } else if name == RoadKey::OffsetY.name() {
            Some(RoadKey::OffsetY)
        } else if name == RoadKey::OffsetZ.name() {
            Some(RoadKey::OffsetZ)
        } else if name == RoadKey::OffsetPhi.name() {
            Some(RoadKey::OffsetPhi)
        } else {
            None
        }
    }

    /// The key named `name` (lower case).
    pub fn find(name: &[u8]) -> (r: Option<Self>)
        ensures
            r == RoadKey::lookup(name@),
    {
        if same_bytes(name, "reference_line_start_u".as_bytes()) {
            return Some(RoadKey::StartU);
        }
        if same_bytes(name, "reference_line_start_x".as_bytes()) {
            return Some(RoadKey::StartX);
        }
        if same_bytes(name, "reference_line_start_y".as_bytes()) {
            return Some(RoadKey::StartY);
        }
        if same_bytes(name, "reference_line_start_z".as_bytes()) {
            return Some(RoadKey::StartZ);
        }
        if same_bytes(name, "reference_line_start_phi".as_bytes()) {
            return Some(RoadKey::StartPhi);
        }
        if same_bytes(name, "reference_line_start_b".as_bytes()) {
            return Some(RoadKey::StartBank);
        }
        if same_bytes(name, "reference_line_start_s".as_bytes()) {
            return Some(RoadKey::StartSlope);
        }
        if same_bytes(name, "reference_line_end_u".as_bytes()) {
            return Some(RoadKey::EndU);
        }
        if same_bytes(name, "reference_line_end_x".as_bytes()) {
            return Some(RoadKey::EndX);
        }
        if same_bytes(name, "reference_line_end_y".as_bytes()) {
            return Some(RoadKey::EndY);
        }
        if same_bytes(name, "reference_line_end_z".as_bytes()) {
            return Some(RoadKey::EndZ);
        }
        if same_bytes(name, "reference_line_end_phi".as_bytes()) {
            return Some(RoadKey::EndPhi);
        }
        if same_bytes(name, "reference_line_end_b".as_bytes()) {
            return Some(RoadKey::EndBank);
        }
        if same_bytes(name, "reference_line_end_s".as_bytes()) {
            return Some(RoadKey::EndSlope);
        }
        if same_bytes(name, "reference_line_increment".as_bytes()) {
            return Some(RoadKey::UIncrement);
        }
        if same_bytes(name, "long_section_v_right".as_bytes()) {
            return Some(RoadKey::VRight);
        }
        if same_bytes(name, "long_section_v_left".as_bytes()) {
            return Some(RoadKey::VLeft);
        }
        if same_bytes(name, "long_section_v_increment".as_bytes()) {
            return Some(RoadKey::VIncrement);
        }
        if same_bytes(name, "reference_line_offset_x".as_bytes()) {
            return Some(RoadKey::OffsetX);
        }
        if same_bytes(name, "reference_line_offset_y".as_bytes()) {
            return Some(RoadKey::OffsetY);
        }
        if same_bytes(name, "reference_line_offset_z".as_bytes()) {
            return Some(RoadKey::OffsetZ);
        }
        if same_bytes(name, "reference_line_offset_phi".as_bytes()) {
            return Some(RoadKey::OffsetPhi);
        }
        None
    }
}

/// A numeric `$ROAD_CRG_OPTS` key.
#[derive(Clone, Copy, Debug, PartialEq, Eq, Structural)]
pub enum OptionKey {
    /// `BORDER_OFFSET_U`
    BorderOffsetU,
    /// `BORDER_OFFSET_V`
    BorderOffsetV,
    /// `BORDER_SMOOTH_UBEG`
    SmoothUBegin,
    /// `BORDER_SMOOTH_UEND`
    SmoothUEnd,
    /// `REFLINE_SEARCH_FAR`
    SearchFar,
    /// `REFLINE_SEARCH_CLOSE`
    SearchClose,
    /// `REFLINE_SEARCH_U`
    SearchU,
    /// `REFLINE_SEARCH_UFRAC`
    SearchUFraction,
}

/// Number of [`OptionKey`] values.
pub const OPTION_KEYS: usize = 8;

impl OptionKey {
    /// Position of the key's slot.
    pub open spec fn index(self) -> int {
        match self {
            OptionKey::BorderOffsetU => 0,
            OptionKey::BorderOffsetV => 1,
            OptionKey::SmoothUBegin => 2,
            OptionKey::SmoothUEnd => 3,
            OptionKey::SearchFar => 4,
            OptionKey::SearchClose => 5,
            OptionKey::SearchU => 6,
            OptionKey::SearchUFraction => 7,
        }
    }

    /// The key's name in lower case.
    pub open spec fn name(self) -> Seq<u8> {
        match self {
            OptionKey::BorderOffsetU => "border_offset_u".spec_bytes(),
            OptionKey::BorderOffsetV => "border_offset_v".spec_bytes(),
            OptionKey::SmoothUBegin => "border_smooth_ubeg".spec_bytes(),
            OptionKey::SmoothUEnd => "border_smooth_uend".spec_bytes(),
            OptionKey::SearchFar => "refline_search_far".spec_bytes(),
            OptionKey::SearchClose => "refline_search_close".spec_bytes(),
            OptionKey::SearchU => "refline_search_u".spec_bytes(),
            OptionKey::SearchUFraction => "refline_search_ufrac".spec_bytes(),
        }
    }

    /// Position of the key's slot.
    pub fn slot(self) -> (i: usize)
        ensures
            i == self.index(),
            i < OPTION_KEYS,
    {
        match self {
            OptionKey::BorderOffsetU => 0,
            OptionKey::BorderOffsetV => 1,
            OptionKey::SmoothUBegin => 2,
            OptionKey::SmoothUEnd => 3,
            OptionKey::SearchFar => 4,
            OptionKey::SearchClose => 5,
            OptionKey::SearchU => 6,
            OptionKey::SearchUFraction => 7,
        }
    }

    /// The key named `name` (lower case), in the order the C-API checks them.
    pub open spec fn lookup(name: Seq<u8>) -> Option<Self> {
        if name == OptionKey::BorderOffsetU.name() {
            Some(OptionKey::BorderOffsetU)
        } else if name == OptionKey::BorderOffsetV.name() {
            Some(OptionKey::BorderOffsetV)
        } else if name == OptionKey::SmoothUBegin.name() {
            Some(OptionKey::SmoothUBegin)
        } else if name == OptionKey::SmoothUEnd.name() {
            Some(OptionKey::SmoothUEnd)
        } else if name == OptionKey::SearchFar.name() {
            Some(OptionKey::SearchFar)
        } else if name == OptionKey::SearchClose.name() {
            Some(OptionKey::SearchClose)
        } else if name == OptionKey::SearchU.name() {
            Some(OptionKey::SearchU)
        } else if name == OptionKey::SearchUFraction.name() {
            Some(OptionKey::SearchUFraction)
        } else {
            None
        }
    }

    /// The key named `name` (lower case).
    pub fn find(name: &[u8]) -> (r: Option<Self>)
        ensures
            r == OptionKey::lookup(name@),
    {
        if same_bytes(name, "border_offset_u".as_bytes()) {
            return Some(OptionKey::BorderOffsetU);
        }
        if same_bytes(name, "border_offset_v".as_bytes()) {
            return Some(OptionKey::BorderOffsetV);
        }
        if same_bytes(name, "border_smooth_ubeg".as_bytes()) {
            return Some(OptionKey::SmoothUBegin);
        }
        if same_bytes(name, "border_smooth_uend".as_bytes()) {
            return Some(OptionKey::SmoothUEnd);
        }
        if same_bytes(name, "refline_search_far".as_bytes()) {
            return Some(OptionKey::SearchFar);
        }
        if same_bytes(name, "refline_search_close".as_bytes()) {
            return Some(OptionKey::SearchClose);
        }
        if same_bytes(name, "refline_search_u".as_bytes()) {
            return Some(OptionKey::SearchU);
        }
        if same_bytes(name, "refline_search_ufrac".as_bytes()) {
            return Some(OptionKey::SearchUFraction);
        }
        None
    }
}

/// A numeric `$ROAD_CRG_MODS` key.
#[derive(Clone, Copy, Debug, PartialEq, Eq, Structural)]
pub enum ModKey {
    /// `SCALE_Z_GRID`
    ScaleZGrid,
    /// `SCALE_SLOPE`
    ScaleSlope,
    /// `SCALE_BANKING`
    ScaleBanking,
    /// `SCALE_LENGTH`
    ScaleLength,
    /// `SCALE_WIDTH`
    ScaleWidth,
    /// `SCALE_CURVATURE`
    ScaleCurvature,
    /// `GRID_NAN_OFFSET`
    GridNanOffset,
    /// `REFLINE_ROTCENTER_X`
    RotCenterX,
    /// `REFLINE_ROTCENTER_Y`
    RotCenterY,
    /// `REFLINE_OFFSET_PHI`
    OffsetPhi,
    /// `REFLINE_OFFSET_X`
    OffsetX,
    /// `REFLINE_OFFSET_Y`
    OffsetY,
    /// `REFLINE_OFFSET_Z`
    OffsetZ,
    /// `REFPOINT_U_FRACTION`
    RefPointUFraction,
    /// `REFPOINT_U_OFFSET`
    RefPointUOffset,
    /// `REFPOINT_U`
    RefPointU,
    /// `REFPOINT_V_FRACTION`
    RefPointVFraction,
    /// `REFPOINT_V_OFFSET`
    RefPointVOffset,
    /// `REFPOINT_V`
    RefPointV,
    /// `REFPOINT_X`
    RefPointX,
    /// `REFPOINT_Y`
    RefPointY,
    /// `REFPOINT_Z`
    RefPointZ,
    /// `REFPOINT_PHI`
    RefPointPhi,
}

/// Number of [`ModKey`] values.
pub const MOD_KEYS: usize = 23;

impl ModKey {
    /// Position of the key's slot.
    pub open spec fn index(self) -> int {
        match self {
            ModKey::ScaleZGrid => 0,
            ModKey::ScaleSlope => 1,
            ModKey::ScaleBanking => 2,
            ModKey::ScaleLength => 3,
            ModKey::ScaleWidth => 4,
            ModKey::ScaleCurvature => 5,
            ModKey::GridNanOffset => 6,
            ModKey::RotCenterX => 7,
            ModKey::RotCenterY => 8,
            ModKey::OffsetPhi => 9,
            ModKey::OffsetX => 10,
            ModKey::OffsetY => 11,
            ModKey::OffsetZ => 12,
            ModKey::RefPointUFraction => 13,
            ModKey::RefPointUOffset => 14,
            ModKey::RefPointU => 15,
            ModKey::RefPointVFraction => 16,
            ModKey::RefPointVOffset => 17,
            ModKey::RefPointV => 18,
            ModKey::RefPointX => 19,
            ModKey::RefPointY => 20,
            ModKey::RefPointZ => 21,
            ModKey::RefPointPhi => 22,
        }
    }

    /// The key's name in lower case.
    pub open spec fn name(self) -> Seq<u8> {
        match self {
            ModKey::ScaleZGrid => "scale_z_grid".spec_bytes(),
            ModKey::ScaleSlope => "scale_slope".spec_bytes(),
            ModKey::ScaleBanking => "scale_banking".spec_bytes(),
            ModKey::ScaleLength => "scale_length".spec_bytes(),
            ModKey::ScaleWidth => "scale_width".spec_bytes(),
            ModKey::ScaleCurvature => "scale_curvature".spec_bytes(),
            ModKey::GridNanOffset => "grid_nan_offset".spec_bytes(),
            ModKey::RotCenterX => "refline_rotcenter_x".spec_bytes(),
            ModKey::RotCenterY => "refline_rotcenter_y".spec_bytes(),
            ModKey::OffsetPhi => "refline_offset_phi".spec_bytes(),
            ModKey::OffsetX => "refline_offset_x".spec_bytes(),
            ModKey::OffsetY => "refline_offset_y".spec_bytes(),
            ModKey::OffsetZ => "refline_offset_z".spec_bytes(),
            ModKey::RefPointUFraction => "refpoint_u_fraction".spec_bytes(),
            ModKey::RefPointUOffset => "refpoint_u_offset".spec_bytes(),
            ModKey::RefPointU => "refpoint_u".spec_bytes(),
            ModKey::RefPointVFraction => "refpoint_v_fraction".spec_bytes(),
            ModKey::RefPointVOffset => "refpoint_v_offset".spec_bytes(),
            ModKey::RefPointV => "refpoint_v".spec_bytes(),
            ModKey::RefPointX => "refpoint_x".spec_bytes(),
            ModKey::RefPointY => "refpoint_y".spec_bytes(),
            ModKey::RefPointZ => "refpoint_z".spec_bytes(),
            ModKey::RefPointPhi => "refpoint_phi".spec_bytes(),
        }
    }

    /// Position of the key's slot.
    pub fn slot(self) -> (i: usize)
        ensures
            i == self.index(),
            i < MOD_KEYS,
    {
        match self {
            ModKey::ScaleZGrid => 0,
            ModKey::ScaleSlope => 1,
            ModKey::ScaleBanking => 2,
            ModKey::ScaleLength => 3,
            ModKey::ScaleWidth => 4,
            ModKey::ScaleCurvature => 5,
            ModKey::GridNanOffset => 6,
            ModKey::RotCenterX => 7,
            ModKey::RotCenterY => 8,
            ModKey::OffsetPhi => 9,
            ModKey::OffsetX => 10,
            ModKey::OffsetY => 11,
            ModKey::OffsetZ => 12,
            ModKey::RefPointUFraction => 13,
            ModKey::RefPointUOffset => 14,
            ModKey::RefPointU => 15,
            ModKey::RefPointVFraction => 16,
            ModKey::RefPointVOffset => 17,
            ModKey::RefPointV => 18,
            ModKey::RefPointX => 19,
            ModKey::RefPointY => 20,
            ModKey::RefPointZ => 21,
            ModKey::RefPointPhi => 22,
        }
    }

    /// The key named `name` (lower case), in the order the C-API checks them.
    pub open spec fn lookup(name: Seq<u8>) -> Option<Self> {
        if name == ModKey::ScaleZGrid.name() {
            Some(ModKey::ScaleZGrid)
        } else if name == ModKey::ScaleSlope.name() {
            Some(ModKey::ScaleSlope)
        } else if name == ModKey::ScaleBanking.name() {
            Some(ModKey::ScaleBanking)
        } else if name == ModKey::ScaleLength.name() {
            Some(ModKey::ScaleLength)
        } else if name == ModKey::ScaleWidth.name() {
            Some(ModKey::ScaleWidth)
        } else if name == ModKey::ScaleCurvature.name() {
            Some(ModKey::ScaleCurvature)
        } else if name == ModKey::GridNanOffset.name() {
            Some(ModKey::GridNanOffset)
        } else if name == ModKey::RotCenterX.name() {
            Some(ModKey::RotCenterX)
        } else if name == ModKey::RotCenterY.name() {
            Some(ModKey::RotCenterY)
        } else if name == ModKey::OffsetPhi.name() {
            Some(ModKey::OffsetPhi)
        } else if name == ModKey::OffsetX.name() {
            Some(ModKey::OffsetX)
        } else if name == ModKey::OffsetY.name() {
            Some(ModKey::OffsetY)
        } else if name == ModKey::OffsetZ.name() {
            Some(ModKey::OffsetZ)
        } else if name == ModKey::RefPointUFraction.name() {
            Some(ModKey::RefPointUFraction)
        } else if name == ModKey::RefPointUOffset.name() {
            Some(ModKey::RefPointUOffset)
        } else if name == ModKey::RefPointU.name() {
            Some(ModKey::RefPointU)
        } else if name == ModKey::RefPointVFraction.name() {
            Some(ModKey::RefPointVFraction)
        } else if name == ModKey::RefPointVOffset.name() {
            Some(ModKey::RefPointVOffset)
        } else if name == ModKey::RefPointV.name() {
            Some(ModKey::RefPointV)
        } else if name == ModKey::RefPointX.name() {
            Some(ModKey::RefPointX)
        } else if name == ModKey::RefPointY.name() {
            Some(ModKey::RefPointY)
        } else if name == ModKey::RefPointZ.name() {
            Some(ModKey::RefPointZ)
        } else if name == ModKey::RefPointPhi.name() {
            Some(ModKey::RefPointPhi)
        } else {
            None
        }
    }

    /// The key named `name` (lower case).
    pub fn find(name: &[u8]) -> (r: Option<Self>)
        ensures
            r == ModKey::lookup(name@),
    {
        if same_bytes(name, "scale_z_grid".as_bytes()) {
            return Some(ModKey::ScaleZGrid);
        }
        if same_bytes(name, "scale_slope".as_bytes()) {
            return Some(ModKey::ScaleSlope);
        }
        if same_bytes(name, "scale_banking".as_bytes()) {
            return Some(ModKey::ScaleBanking);
        }
        if same_bytes(name, "scale_length".as_bytes()) {
            return Some(ModKey::ScaleLength);
        }
        if same_bytes(name, "scale_width".as_bytes()) {
            return Some(ModKey::ScaleWidth);
        }
        if same_bytes(name, "scale_curvature".as_bytes()) {
            return Some(ModKey::ScaleCurvature);
        }
        if same_bytes(name, "grid_nan_offset".as_bytes()) {
            return Some(ModKey::GridNanOffset);
        }
        if same_bytes(name, "refline_rotcenter_x".as_bytes()) {
            return Some(ModKey::RotCenterX);
        }
        if same_bytes(name, "refline_rotcenter_y".as_bytes()) {
            return Some(ModKey::RotCenterY);
        }
        if same_bytes(name, "refline_offset_phi".as_bytes()) {
            return Some(ModKey::OffsetPhi);
        }
        if same_bytes(name, "refline_offset_x".as_bytes()) {
            return Some(ModKey::OffsetX);
        }
        if same_bytes(name, "refline_offset_y".as_bytes()) {
            return Some(ModKey::OffsetY);
        }
        if same_bytes(name, "refline_offset_z".as_bytes()) {
            return Some(ModKey::OffsetZ);
        }
        if same_bytes(name, "refpoint_u_fraction".as_bytes()) {
            return Some(ModKey::RefPointUFraction);
        }
        if same_bytes(name, "refpoint_u_offset".as_bytes()) {
            return Some(ModKey::RefPointUOffset);
        }
        if same_bytes(name, "refpoint_u".as_bytes()) {
            return Some(ModKey::RefPointU);
        }
        if same_bytes(name, "refpoint_v_fraction".as_bytes()) {
            return Some(ModKey::RefPointVFraction);
        }
        if same_bytes(name, "refpoint_v_offset".as_bytes()) {
            return Some(ModKey::RefPointVOffset);
        }
        if same_bytes(name, "refpoint_v".as_bytes()) {
            return Some(ModKey::RefPointV);
        }
        if same_bytes(name, "refpoint_x".as_bytes()) {
            return Some(ModKey::RefPointX);
        }
        if same_bytes(name, "refpoint_y".as_bytes()) {
            return Some(ModKey::RefPointY);
        }
        if same_bytes(name, "refpoint_z".as_bytes()) {
            return Some(ModKey::RefPointZ);
        }
        if same_bytes(name, "refpoint_phi".as_bytes()) {
            return Some(ModKey::RefPointPhi);
        }
        None
    }
}

proof fn lemma_road_key_names()
    ensures
        RoadKey::StartU.name().len() == 22 && RoadKey::StartU.name()[0] == 114 && RoadKey::StartU.name()[21] == 117 && RoadKey::StartU.name()[9] == 95,
        RoadKey::StartX.name().len() == 22 && RoadKey::StartX.name()[0] == 114 && RoadKey::StartX.name()[21] == 120 && RoadKey::StartX.name()[9] == 95,
        RoadKey::StartY.name().len() == 22 && RoadKey::StartY.name()[0] == 114 && RoadKey::StartY.name()[21] == 121 && RoadKey::StartY.name()[9] == 95,
        RoadKey::StartZ.name().len() == 22 && RoadKey::StartZ.name()[0] == 114 && RoadKey::StartZ.name()[21] == 122 && RoadKey::StartZ.name()[9] == 95,
        RoadKey::StartPhi.name().len() == 24 && RoadKey::StartPhi.name()[0] == 114 && RoadKey::StartPhi.name()[23] == 105 && RoadKey::StartPhi.name()[9] == 95,
        RoadKey::StartBank.name().len() == 22 && RoadKey::StartBank.name()[0] == 114 && RoadKey::StartBank.name()[21] == 98 && RoadKey::StartBank.name()[9] == 95,
        RoadKey::StartSlope.name().len() == 22 && RoadKey::StartSlope.name()[0] == 114 && RoadKey::StartSlope.name()[21] == 115 && RoadKey::StartSlope.name()[9] == 95,
        RoadKey::EndU.name().len() == 20 && RoadKey::EndU.name()[0] == 114 && RoadKey::EndU.name()[19] == 117 && RoadKey::EndU.name()[9] == 95,
        RoadKey::EndX.name().len() == 20 && RoadKey::EndX.name()[0] == 114 && RoadKey::EndX.name()[19] == 120 && RoadKey::EndX.name()[9] == 95,
        RoadKey::EndY.name().len() == 20 && RoadKey::EndY.name()[0] == 114 && RoadKey::EndY.name()[19] == 121 && RoadKey::EndY.name()[9] == 95,
        RoadKey::EndZ.name().len() == 20 && RoadKey::EndZ.name()[0] == 114 && RoadKey::EndZ.name()[19] == 122 && RoadKey::EndZ.name()[9] == 95,
        RoadKey::EndPhi.name().len() == 22 && RoadKey::EndPhi.name()[0] == 114 && RoadKey::EndPhi.name()[21] == 105 && RoadKey::EndPhi.name()[9] == 95,
        RoadKey::EndBank.name().len() == 20 && RoadKey::EndBank.name()[0] == 114 && RoadKey::EndBank.name()[19] == 98 && RoadKey::EndBank.name()[9] == 95,
        RoadKey::EndSlope.name().len() == 20 && RoadKey::EndSlope.name()[0] == 114 && RoadKey::EndSlope.name()[19] == 115 && RoadKey::EndSlope.name()[9] == 95,
        RoadKey::UIncrement.name().len() == 24 && RoadKey::UIncrement.name()[0] == 114 && RoadKey::UIncrement.name()[23] == 116 && RoadKey::UIncrement.name()[9] == 95,
        RoadKey::VRight.name().len() == 20 && RoadKey::VRight.name()[0] == 108 && RoadKey::VRight.name()[19] == 116 && RoadKey::VRight.name()[9] == 105,
        RoadKey::VLeft.name().len() == 19 && RoadKey::VLeft.name()[0] == 108 && RoadKey::VLeft.name()[18] == 116 && RoadKey::VLeft.name()[9] == 105,
        RoadKey::VIncrement.name().len() == 24 && RoadKey::VIncrement.name()[0] == 108 && RoadKey::VIncrement.name()[23] == 116 && RoadKey::VIncrement.name()[9] == 105,
        RoadKey::OffsetX.name().len() == 23 && RoadKey::OffsetX.name()[0] == 114 && RoadKey::OffsetX.name()[22] == 120 && RoadKey::OffsetX.name()[9] == 95,
        RoadKey::OffsetY.name().len() == 23 && RoadKey::OffsetY.name()[0] == 114 && RoadKey::OffsetY.name()[22] == 121 && RoadKey::OffsetY.name()[9] == 95,
        RoadKey::OffsetZ.name().len() == 23 && RoadKey::OffsetZ.name()[0] == 114 && RoadKey::OffsetZ.name()[22] == 122 && RoadKey::OffsetZ.name()[9] == 95,
        RoadKey::OffsetPhi.name().len() == 25 && RoadKey::OffsetPhi.name()[0] == 114 && RoadKey::OffsetPhi.name()[24] == 105 && RoadKey::OffsetPhi.name()[9] == 95,
{
    broadcast use vstd::string::is_ascii_spec_bytes;
    reveal_strlit("reference_line_start_u");
    assert(vstd::string::is_ascii("reference_line_start_u"));
    reveal_strlit("reference_line_start_x");
    assert(vstd::string::is_ascii("reference_line_start_x"));
    reveal_strlit("reference_line_start_y");
    assert(vstd::string::is_ascii("reference_line_start_y"));
    reveal_strlit("reference_line_start_z");
    assert(vstd::string::is_ascii("reference_line_start_z"));
    reveal_strlit("reference_line_start_phi");
    assert(vstd::string::is_ascii("reference_line_start_phi"));
    reveal_strlit("reference_line_start_b");
    assert(vstd::string::is_ascii("reference_line_start_b"));
    reveal_strlit("reference_line_start_s");
    assert(vstd::string::is_ascii("reference_line_start_s"));
    reveal_strlit("reference_line_end_u");
    assert(vstd::string::is_ascii("reference_line_end_u"));
    reveal_strlit("reference_line_end_x");
    assert(vstd::string::is_ascii("reference_line_end_x"));
    reveal_strlit("reference_line_end_y");
    assert(vstd::string::is_ascii("reference_line_end_y"));
    reveal_strlit("reference_line_end_z");
    assert(vstd::string::is_ascii("reference_line_end_z"));
    reveal_strlit("reference_line_end_phi");
    assert(vstd::string::is_ascii("reference_line_end_phi"));
    reveal_strlit("reference_line_end_b");
    assert(vstd::string::is_ascii("reference_line_end_b"));
    reveal_strlit("reference_line_end_s");
    assert(vstd::string::is_ascii("reference_line_end_s"));
    reveal_strlit("reference_line_increment");
    assert(vstd::string::is_ascii("reference_line_increment"));
    reveal_strlit("long_section_v_right");
    assert(vstd::string::is_ascii("long_section_v_right"));
    reveal_strlit("long_section_v_left");
    assert(vstd::string::is_ascii("long_section_v_left"));
    reveal_strlit("long_section_v_increment");
    assert(vstd::string::is_ascii("long_section_v_increment"));
    reveal_strlit("reference_line_offset_x");
    assert(vstd::string::is_ascii("reference_line_offset_x"));
    reveal_strlit("reference_line_offset_y");
    assert(vstd::string::is_ascii("reference_line_offset_y"));
    reveal_strlit("reference_line_offset_z");
    assert(vstd::string::is_ascii("reference_line_offset_z"));
    reveal_strlit("reference_line_offset_phi");
    assert(vstd::string::is_ascii("reference_line_offset_phi"));
}

/// Every `$ROAD_CRG` key is found by its own name, and a name finds only the key it
/// names: a `NAME = value` line sets the slot of the key called NAME.
pub proof fn road_keys_are_found_by_name(k: RoadKey, name: Seq<u8>)
    ensures
        RoadKey::lookup(k.name()) == Some(k),
        RoadKey::lookup(name) matches Some(j) ==> name == j.name(),
{
    lemma_road_key_names();
}

proof fn lemma_option_key_names()
    ensures
        OptionKey::BorderOffsetU.name().len() == 15 && OptionKey::BorderOffsetU.name()[0] == 98 && OptionKey::BorderOffsetU.name()[14] == 117 && OptionKey::BorderOffsetU.name()[9] == 102,
        OptionKey::BorderOffsetV.name().len() == 15 && OptionKey::BorderOffsetV.name()[0] == 98 && OptionKey::BorderOffsetV.name()[14] == 118 && OptionKey::BorderOffsetV.name()[9] == 102,
        OptionKey::SmoothUBegin.name().len() == 18 && OptionKey::SmoothUBegin.name()[0] == 98 && OptionKey::SmoothUBegin.name()[17] == 103 && OptionKey::SmoothUBegin.name()[9] == 111,
        OptionKey::SmoothUEnd.name().len() == 18 && OptionKey::SmoothUEnd.name()[0] == 98 && OptionKey::SmoothUEnd.name()[17] == 100 && OptionKey::SmoothUEnd.name()[9] == 111,
        OptionKey::SearchFar.name().len() == 18 && OptionKey::SearchFar.name()[0] == 114 && OptionKey::SearchFar.name()[17] == 114 && OptionKey::SearchFar.name()[9] == 101,
        OptionKey::SearchClose.name().len() == 20 && OptionKey::SearchClose.name()[0] == 114 && OptionKey::SearchClose.name()[19] == 101 && OptionKey::SearchClose.name()[9] == 101,
        OptionKey::SearchU.name().len() == 16 && OptionKey::SearchU.name()[0] == 114 && OptionKey::SearchU.name()[15] == 117 && OptionKey::SearchU.name()[9] == 101,
        OptionKey::SearchUFraction.name().len() == 20 && OptionKey::SearchUFraction.name()[0] == 114 && OptionKey::SearchUFraction.name()[19] == 99 && OptionKey::SearchUFraction.name()[9] == 101,
{
    broadcast use vstd::string::is_ascii_spec_bytes;
    reveal_strlit("border_offset_u");
    assert(vstd::string::is_ascii("border_offset_u"));
    reveal_strlit("border_offset_v");
    assert(vstd::string::is_ascii("border_offset_v"));
    reveal_strlit("border_smooth_ubeg");
    assert(vstd::string::is_ascii("border_smooth_ubeg"));
    reveal_strlit("border_smooth_uend");
    assert(vstd::string::is_ascii("border_smooth_uend"));
    reveal_strlit("refline_search_far");
    assert(vstd::string::is_ascii("refline_search_far"));
    reveal_strlit("refline_search_close");
    assert(vstd::string::is_ascii("refline_search_close"));
    reveal_strlit("refline_search_u");
    assert(vstd::string::is_ascii("refline_search_u"));
    reveal_strlit("refline_search_ufrac");
    assert(vstd::string::is_ascii("refline_search_ufrac"));
}

/// Every numeric `$ROAD_CRG_OPTS` key is found by its own name, and a name finds only the key it
/// names: a `NAME = value` line sets the slot of the key called NAME.
pub proof fn option_keys_are_found_by_name(k: OptionKey, name: Seq<u8>)
    ensures
        OptionKey::lookup(k.name()) == Some(k),
        OptionKey::lookup(name) matches Some(j) ==> name == j.name(),
{
    lemma_option_key_names();
}

proof fn lemma_mod_key_names()
    ensures
        ModKey::ScaleZGrid.name().len() == 12 && ModKey::ScaleZGrid.name()[0] == 115 && ModKey::ScaleZGrid.name()[11] == 100 && ModKey::ScaleZGrid.name()[9] == 114,
        ModKey::ScaleSlope.name().len() == 11 && ModKey::ScaleSlope.name()[0] == 115 && ModKey::ScaleSlope.name()[10] == 101 && ModKey::ScaleSlope.name()[9] == 112,
        ModKey::ScaleBanking.name().len() == 13 && ModKey::ScaleBanking.name()[0] == 115 && ModKey::ScaleBanking.name()[12] == 103 && ModKey::ScaleBanking.name()[9] == 107,
        ModKey::ScaleLength.name().len() == 12 && ModKey::ScaleLength.name()[0] == 115 && ModKey::ScaleLength.name()[11] == 104 && ModKey::ScaleLength.name()[9] == 103,
        ModKey::ScaleWidth.name().len() == 11 && ModKey::ScaleWidth.name()[0] == 115 && ModKey::ScaleWidth.name()[10] == 104 && ModKey::ScaleWidth.name()[9] == 116,
        ModKey::ScaleCurvature.name().len() == 15 && ModKey::ScaleCurvature.name()[0] == 115 && ModKey::ScaleCurvature.name()[14] == 101 && ModKey::ScaleCurvature.name()[9] == 118,
        ModKey::GridNanOffset.name().len() == 15 && ModKey::GridNanOffset.name()[0] == 103 && ModKey::GridNanOffset.name()[14] == 116 && ModKey::GridNanOffset.name()[9] == 111,
        ModKey::RotCenterX.name().len() == 19 && ModKey::RotCenterX.name()[0] == 114 && ModKey::RotCenterX.name()[18] == 120 && ModKey::RotCenterX.name()[9] == 111,
        ModKey::RotCenterY.name().len() == 19 && ModKey::RotCenterY.name()[0] == 114 && ModKey::RotCenterY.name()[18] == 121 && ModKey::RotCenterY.name()[9] == 111,
        ModKey::OffsetPhi.name().len() == 18 && ModKey::OffsetPhi.name()[0] == 114 && ModKey::OffsetPhi.name()[17] == 105 && ModKey::OffsetPhi.name()[9] == 102,
        ModKey::OffsetX.name().len() == 16 && ModKey::OffsetX.name()[0] == 114 && ModKey::OffsetX.name()[15] == 120 && ModKey::OffsetX.name()[9] == 102,
        ModKey::OffsetY.name().len() == 16 && ModKey::OffsetY.name()[0] == 114 && ModKey::OffsetY.name()[15] == 121 && ModKey::OffsetY.name()[9] == 102,
        ModKey::OffsetZ.name().len() == 16 && ModKey::OffsetZ.name()[0] == 114 && ModKey::OffsetZ.name()[15] == 122 && ModKey::OffsetZ.name()[9] == 102,
        ModKey::RefPointUFraction.name().len() == 19 && ModKey::RefPointUFraction.name()[0] == 114 && ModKey::RefPointUFraction.name()[18] == 110 && ModKey::RefPointUFraction.name()[9] == 117,
        ModKey::RefPointUOffset.name().len() == 17 && ModKey::RefPointUOffset.name()[0] == 114 && ModKey::RefPointUOffset.name()[16] == 116 && ModKey::RefPointUOffset.name()[9] == 117,
        ModKey::RefPointU.name().len() == 10 && ModKey::RefPointU.name()[0] == 114 && ModKey::RefPointU.name()[9] == 117 && ModKey::RefPointU.name()[9] == 117,
        ModKey::RefPointVFraction.name().len() == 19 && ModKey::RefPointVFraction.name()[0] == 114 && ModKey::RefPointVFraction.name()[18] == 110 && ModKey::RefPointVFraction.name()[9] == 118,
        ModKey::RefPointVOffset.name().len() == 17 && ModKey::RefPointVOffset.name()[0] == 114 && ModKey::RefPointVOffset.name()[16] == 116 && ModKey::RefPointVOffset.name()[9] == 118,
        ModKey::RefPointV.name().len() == 10 && ModKey::RefPointV.name()[0] == 114 && ModKey::RefPointV.name()[9] == 118 && ModKey::RefPointV.name()[9] == 118,
        ModKey::RefPointX.name().len() == 10 && ModKey::RefPointX.name()[0] == 114 && ModKey::RefPointX.name()[9] == 120 && ModKey::RefPointX.name()[9] == 120,
        ModKey::RefPointY.name().len() == 10 && ModKey::RefPointY.name()[0] == 114 && ModKey::RefPointY.name()[9] == 121 && ModKey::RefPointY.name()[9] == 121,
        ModKey::RefPointZ.name().len() == 10 && ModKey::RefPointZ.name()[0] == 114 && ModKey::RefPointZ.name()[9] == 122 && ModKey::RefPointZ.name()[9] == 122,
        ModKey::RefPointPhi.name().len() == 12 && ModKey::RefPointPhi.name()[0] == 114 && ModKey::RefPointPhi.name()[11] == 105 && ModKey::RefPointPhi.name()[9] == 112,
{
    broadcast use vstd::string::is_ascii_spec_bytes;
    reveal_strlit("scale_z_grid");
    assert(vstd::string::is_ascii("scale_z_grid"));
    reveal_strlit("scale_slope");
    assert(vstd::string::is_ascii("scale_slope"));
    reveal_strlit("scale_banking");
    assert(vstd::string::is_ascii("scale_banking"));
    reveal_strlit("scale_length");
    assert(vstd::string::is_ascii("scale_length"));
    reveal_strlit("scale_width");
    assert(vstd::string::is_ascii("scale_width"));
    reveal_strlit("scale_curvature");
    assert(vstd::string::is_ascii("scale_curvature"));
    reveal_strlit("grid_nan_offset");
    assert(vstd::string::is_ascii("grid_nan_offset"));
    reveal_strlit("refline_rotcenter_x");
    assert(vstd::string::is_ascii("refline_rotcenter_x"));
    reveal_strlit("refline_rotcenter_y");
    assert(vstd::string::is_ascii("refline_rotcenter_y"));
    reveal_strlit("refline_offset_phi");
    assert(vstd::string::is_ascii("refline_offset_phi"));
    reveal_strlit("refline_offset_x");
    assert(vstd::string::is_ascii("refline_offset_x"));
    reveal_strlit("refline_offset_y");
    assert(vstd::string::is_ascii("refline_offset_y"));
    reveal_strlit("refline_offset_z");
    assert(vstd::string::is_ascii("refline_offset_z"));
    reveal_strlit("refpoint_u_fraction");
    assert(vstd::string::is_ascii("refpoint_u_fraction"));
    reveal_strlit("refpoint_u_offset");
    assert(vstd::string::is_ascii("refpoint_u_offset"));
    reveal_strlit("refpoint_u");
    assert(vstd::string::is_ascii("refpoint_u"));
    reveal_strlit("refpoint_v_fraction");
    assert(vstd::string::is_ascii("refpoint_v_fraction"));
    reveal_strlit("refpoint_v_offset");
    assert(vstd::string::is_ascii("refpoint_v_offset"));
    reveal_strlit("refpoint_v");
    assert(vstd::string::is_ascii("refpoint_v"));
    reveal_strlit("refpoint_x");
    assert(vstd::string::is_ascii("refpoint_x"));
    reveal_strlit("refpoint_y");
    assert(vstd::string::is_ascii("refpoint_y"));
    reveal_strlit("refpoint_z");
    assert(vstd::string::is_ascii("refpoint_z"));
    reveal_strlit("refpoint_phi");
    assert(vstd::string::is_ascii("refpoint_phi"));
}

/// Every `$ROAD_CRG_MODS` key is found by its own name, and a name finds only the key it
/// names: a `NAME = value` line sets the slot of the key called NAME.
pub proof fn mod_keys_are_found_by_name(k: ModKey, name: Seq<u8>)
    ensures
        ModKey::lookup(k.name()) == Some(k),
        ModKey::lookup(name) matches Some(j) ==> name == j.name(),
{
    lemma_mod_key_names();
}

/// Each key has a slot of its own among the ROAD_KEYS slots.
pub proof fn road_keys_have_their_own_slots(a: RoadKey, b: RoadKey)
    ensures
        0 <= a.index() < ROAD_KEYS,
        a.index() == b.index() ==> a == b,
{
}

/// Each key has a slot of its own among the OPTION_KEYS slots.
pub proof fn option_keys_have_their_own_slots(a: OptionKey, b: OptionKey)
    ensures
        0 <= a.index() < OPTION_KEYS,
        a.index() == b.index() ==> a == b,
{
}

/// Each key has a slot of its own among the MOD_KEYS slots.
pub proof fn mod_keys_have_their_own_slots(a: ModKey, b: ModKey)
    ensures
        0 <= a.index() < MOD_KEYS,
        a.index() == b.index() ==> a == b,
{
}

} // verus!
