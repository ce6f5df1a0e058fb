//! Which value each NaN hole takes when the grid is filled.

use opencrg::nans::{nan_fill_plan, Fill, NanFlags};
use opencrg::NanMode;

fn flags(z: &[f32], offset: f32) -> NanFlags {
    NanFlags {
        plain: z.iter().map(|v| v.is_nan()).collect(),
        once: z.iter().map(|v| (v + offset).is_nan()).collect(),
        twice: z.iter().map(|v| (v + offset + offset).is_nan()).collect(),
        offset: offset.is_nan(),
    }
}

fn from(from: usize, adds: u8) -> Fill {
    Fill::From { from, adds }
}

const N: f32 = f32::NAN;

#[test]
fn set_zero_puts_the_offset_in_every_hole() {
    let z = [N, 1.0, N, 2.0];
    assert_eq!(
        nan_fill_plan(&flags(&z, 0.5), 4, NanMode::SetZero),
        [Fill::Offset, from(1, 0), Fill::Offset, from(3, 0)]
    );
}

#[test]
fn keep_last_takes_the_left_neighbour_then_the_right_one() {
    let z = [N, N, 5.0, N, 7.0, N];
    assert_eq!(
        nan_fill_plan(&flags(&z, 0.5), 6, NanMode::KeepLast),
        [from(2, 1), from(2, 1), from(2, 0), from(2, 1), from(4, 0), from(4, 0)]
    );
}

#[test]
fn the_offset_flag_carries_into_the_next_cross_section() {
    let z = [N, 1.0, N, 2.0, N, 3.0];
    assert_eq!(
        nan_fill_plan(&flags(&z, 0.5), 3, NanMode::KeepLast),
        [from(1, 1), from(1, 0), from(1, 1), from(3, 0), from(3, 0), from(5, 0)]
    );
}

#[test]
fn values_after_the_last_whole_cross_section_stay() {
    let z = [N, 1.0, 2.0, N, N];
    assert_eq!(
        nan_fill_plan(&flags(&z, 0.0), 2, NanMode::SetZero),
        [Fill::Offset, from(1, 0), from(2, 0), Fill::Offset, from(4, 0)]
    );
}

#[test]
fn keep_mode_and_a_single_long_section_change_nothing() {
    let z = [N, 1.0, N];
    assert_eq!(
        nan_fill_plan(&flags(&z, 0.5), 3, NanMode::Keep),
        [from(0, 0), from(1, 0), from(2, 0)]
    );
    assert_eq!(
        nan_fill_plan(&flags(&z, 0.5), 1, NanMode::KeepLast),
        [from(0, 0), from(1, 0), from(2, 0)]
    );
}

#[test]
fn a_hole_that_the_offset_turns_into_nan_stays_a_hole() {
    let z = [f32::INFINITY, N, N];
    assert_eq!(
        nan_fill_plan(&flags(&z, f32::NEG_INFINITY), 3, NanMode::KeepLast),
        [from(0, 0), from(0, 1), from(0, 1)]
    );
}
