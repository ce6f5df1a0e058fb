//! Header values: C-style number prefixes and the option and modifier blocks.

use opencrg::header::{Mods, Options, Road};
use opencrg::keys::{ModKey, OptionKey, RoadKey};
use opencrg::number::{c_atoi, numeric_prefix_exec};
use opencrg::{BorderMode, NanMode};

/// C `atof`: the number in the longest numeric prefix, or `None` without a digit.
fn c_atof(s: &str) -> Option<f64> {
    numeric_prefix_exec(s.as_bytes()).map(|(a, b)| s[a..b].parse().unwrap())
}

fn atoi(s: &str) -> Option<i64> {
    c_atoi(s.as_bytes())
}

#[test]
fn atof_takes_numeric_prefix() {
    assert_eq!(c_atof("-1.50           ! comment"), Some(-1.5));
    assert_eq!(c_atof(" 7.3000000000000000e+002"), Some(730.0));
    assert_eq!(c_atof("1.e5x"), Some(1e5));
    assert_eq!(c_atof(".5"), Some(0.5));
    assert_eq!(c_atof("2e"), Some(2.0));
    assert_eq!(c_atof("1.0D+01"), Some(1.0));
    assert_eq!(c_atof("   "), None);
    assert_eq!(c_atof("-."), None);
}

#[test]
fn atoi_truncates() {
    assert_eq!(atoi("   0.0000000000000000e+00"), Some(0));
    assert_eq!(atoi(" 2 ! keep"), Some(2));
    assert_eq!(atoi("-3.9"), Some(-3));
    assert_eq!(atoi("x"), None);
}

#[test]
fn atoi_saturates_and_trims_unicode_whitespace() {
    assert_eq!(atoi("99999999999999999999"), Some(i64::MAX));
    assert_eq!(atoi("-99999999999999999999"), Some(-i64::MAX));
    assert_eq!(atoi("+7"), Some(7));
    assert_eq!(atoi("\u{a0}\u{2003}\t12x"), Some(12));
    assert_eq!(atoi("+-1"), None);
}

#[test]
fn numeric_prefix_bounds() {
    assert_eq!(numeric_prefix_exec(b"  -1.5e-3xyz"), Some((2, 9)));
    assert_eq!(numeric_prefix_exec(b"1e+"), Some((0, 1)));
    assert_eq!(numeric_prefix_exec(b"\x0b1"), None);
}

#[test]
fn options_decode_c_style_integers() {
    let mut o = Options::new();
    o.apply(b"border_mode_v        =   0.0000000000000000e+00")
        .unwrap();
    o.apply(b"  BORDER_MODE_U = 3             ! repeat").unwrap();
    o.apply(b"REFLINE_CONTINUATION = 1").unwrap();
    o.apply(b"LOG_EVAL = 20").unwrap();
    assert_eq!(o.border_mode_v, Some(BorderMode::Refuse));
    assert_eq!(o.border_mode_u, Some(BorderMode::Repeat));
    assert_eq!(o.refline_close_track, Some(true));
    assert!(o.apply(b"BORDER_MODE_U = 7").is_err());
}

#[test]
fn option_errors_name_the_problem() {
    let mut o = Options::new();
    assert_eq!(o.apply(b"BORDER_MODE_U 3"), Err("expected `key = value`"));
    assert_eq!(o.apply(b"BORDER_MODE_U = x"), Err("expected an integer"));
    assert_eq!(o.apply(b"BORDER_MODE_U = 5"), Err("border mode must be 0 to 4"));
    assert_eq!(
        o.apply(b"REFLINE_CONTINUATION = 2"),
        Err("refline continuation must be 0 or 1")
    );
    assert_eq!(o.apply(b"BORDER_OFFSET_U = none"), Err("expected a number"));
    assert_eq!(o.border_mode_u, None);
    o.apply(b"border_smooth_ubeg = 2.5 ! m").unwrap();
    assert_eq!(o.get(OptionKey::SmoothUBegin).map(Vec::as_slice), Some(&b"2.5"[..]));
}

#[test]
fn road_values_keep_the_number_text() {
    let mut r = Road::new();
    r.apply(b"  REFERENCE_LINE_START_X =  -12.25e1 ! m").unwrap();
    r.apply(b"UNKNOWN_KEY = whatever").unwrap();
    r.apply(b"reference_line_increment=0.5").unwrap();
    assert_eq!(r.get(RoadKey::StartX).map(Vec::as_slice), Some(&b"-12.25e1"[..]));
    assert_eq!(r.get(RoadKey::UIncrement).map(Vec::as_slice), Some(&b"0.5"[..]));
    assert_eq!(r.get(RoadKey::StartY), None);
    assert_eq!(r.apply(b"REFERENCE_LINE_END_U = ."), Err("expected a number"));
}

#[test]
fn later_lines_override_earlier_ones() {
    let mut r = Road::new();
    r.apply(b"REFERENCE_LINE_START_Z = 1").unwrap();
    r.apply(b"REFERENCE_LINE_START_Z = 2").unwrap();
    assert_eq!(r.get(RoadKey::StartZ).map(Vec::as_slice), Some(&b"2"[..]));
}

#[test]
fn modifiers_decode_nan_mode_and_numbers() {
    let mut m = Mods::new();
    m.apply(b"GRID_NAN_MODE = 1").unwrap();
    m.apply(b"SCALE_LENGTH = 2").unwrap();
    assert_eq!(m.grid_nan_mode, Some(NanMode::SetZero));
    assert_eq!(m.get(ModKey::ScaleLength).map(Vec::as_slice), Some(&b"2"[..]));
    assert_eq!(m.apply(b"GRID_NAN_MODE = 3"), Err("grid NaN mode must be 0 to 2"));
    let d = Mods::c_api_defaults();
    assert_eq!(d.grid_nan_mode, Some(NanMode::KeepLast));
    assert_eq!(d.get(ModKey::RefPointPhi).map(Vec::as_slice), Some(&b"0"[..]));
    assert_eq!(d.get(ModKey::ScaleZGrid), None);
}

#[test]
fn border_modes_round_trip_their_numbers() {
    for (code, mode) in [
        (0, BorderMode::Refuse),
        (1, BorderMode::Zero),
        (2, BorderMode::Keep),
        (3, BorderMode::Repeat),
        (4, BorderMode::Reflect),
    ] {
        assert_eq!(BorderMode::from_code(code), Some(mode));
    }
    assert_eq!(BorderMode::from_code(5), None);
    assert_eq!(BorderMode::from_code(-1), None);
    assert_eq!(NanMode::from_code(2), Some(NanMode::KeepLast));
    assert_eq!(NanMode::from_code(3), None);
}
