//! Decoding of the data section: record layout, ASCII fields, and big-endian binary values.

use opencrg::data::{decode_records, Format, Value};
use opencrg::Error;

/// The float a decoded value stands for.
fn number(value: &Value) -> f64 {
    match value {
        Value::Single(bits) => f64::from(f32::from_bits(*bits)),
        Value::Double(bits) => f64::from_bits(*bits),
        Value::Decimal(text) => std::str::from_utf8(text).unwrap().parse().unwrap(),
        Value::Zero => 0.0,
        Value::NotANumber => f64::NAN,
    }
}

fn collect(
    data: &[u8],
    format: Format,
    channels: usize,
    binary_records: usize,
) -> Result<Vec<Vec<f64>>, Error> {
    let records = decode_records(data, format, channels, binary_records)?;
    Ok(records
        .iter()
        .map(|r| r.iter().map(number).collect())
        .collect())
}

fn fmt(code: &str) -> Format {
    Format::from_code(code)
}

#[test]
fn format_codes() {
    assert_eq!(
        fmt("LRFI"),
        Format {
            long: true,
            double: false,
            ascii: true
        }
    );
    assert_eq!(
        fmt("KDBI"),
        Format {
            long: false,
            double: true,
            ascii: false
        }
    );
    assert_eq!(
        fmt("KRBI                ! x"),
        Format {
            long: false,
            double: false,
            ascii: false
        }
    );
}

#[test]
fn ascii_fields_touch_and_wrap() {
    let data = b" 0.0111111 0.0000000 0.0000000 0.0000000 0.0000000 0.0000000 0.0000000 0.0000000\r\n 1.0000000-0.0111111\r\n\
                 *missing* **unused** 3.0000000 4.0000000 5.0000000 6.0000000 7.0000000 8.0000000\n 9.0000000 1.0D+01   \n";
    let rows = collect(data, fmt("LRFI"), 10, 0).unwrap();
    assert_eq!(rows.len(), 2);
    assert_eq!(rows[0][0], 0.0111111);
    assert_eq!(rows[0][9], -0.0111111);
    assert!(rows[1][0].is_nan());
    assert_eq!(rows[1][1], 0.0);
    assert_eq!(rows[1][9], 1.0);
}

#[test]
fn ascii_keeps_final_record_without_newline() {
    let rows = collect(
        b" 1.0000000 2.0000000\n 3.0000000 4.0000000",
        fmt("LRFI"),
        2,
        0,
    )
    .unwrap();
    assert_eq!(rows, vec![vec![1.0, 2.0], vec![3.0, 4.0]]);
}

#[test]
fn ascii_drops_partial_record() {
    let rows = collect(b" 1.0000000 2.0000000\n 3.0000000\n", fmt("LRFI"), 2, 0).unwrap();
    assert_eq!(rows, vec![vec![1.0, 2.0]]);
}

#[test]
fn ascii_double_width() {
    let rows = collect(
        b" 1.23456789012345670-2.0000000000000e-03\n",
        fmt("LDFI"),
        2,
        0,
    )
    .unwrap();
    assert_eq!(rows, vec![vec![1.2345678901234567, -0.002]]);
}

#[test]
fn compact_ascii_ignores_line_breaks_between_fields() {
    let rows = collect(
        b" 1.0000000 2.0000000 3.0000000\n 4.0000000 5.0000000 6.0000000",
        fmt("KRFI"),
        2,
        0,
    )
    .unwrap();
    assert_eq!(rows, vec![vec![1.0, 2.0], vec![3.0, 4.0], vec![5.0, 6.0]]);
}

#[test]
fn binary_single_and_double_are_big_endian() {
    let mut krbi = Vec::new();
    for v in [1.5f32, -2.25, f32::NAN, 4.0] {
        krbi.extend_from_slice(&v.to_be_bytes());
    }
    let rows = collect(&krbi, fmt("KRBI"), 2, 2).unwrap();
    assert_eq!(rows[0], vec![1.5, -2.25]);
    assert!(rows[1][0].is_nan());

    let mut kdbi = Vec::new();
    for v in [0.1f64, 0.2] {
        kdbi.extend_from_slice(&v.to_be_bytes());
    }
    assert_eq!(
        collect(&kdbi, fmt("KDBI"), 1, 2).unwrap(),
        vec![vec![0.1], vec![0.2]]
    );
}

#[test]
fn long_binary_pads_records_to_80_bytes() {
    let mut lrbi = vec![0u8; 160];
    lrbi[0..4].copy_from_slice(&1.0f32.to_be_bytes());
    lrbi[80..84].copy_from_slice(&2.0f32.to_be_bytes());
    assert_eq!(
        collect(&lrbi, fmt("LRBI"), 1, 2).unwrap(),
        vec![vec![1.0], vec![2.0]]
    );
}

#[test]
fn binary_shorter_than_declared_is_an_error() {
    assert_eq!(
        collect(&[0; 7], fmt("KRBI"), 1, 2),
        Err(Error::Truncated {
            expected: 8,
            actual: 7
        })
    );
}

#[test]
fn record_sizes_follow_the_format() {
    assert_eq!(fmt("KRBI").record_size(3), Some(12));
    assert_eq!(fmt("KDBI").record_size(3), Some(24));
    assert_eq!(fmt("LRFI").record_size(9), Some(160));
    assert_eq!(fmt("LDFI").record_size(4), Some(80));
    assert_eq!(fmt("KRFI").record_size(usize::MAX / 5), None);
    assert_eq!(fmt("LRBI").record_size(usize::MAX / 4), None);
}

#[test]
fn big_endian_bits_are_kept_exactly() {
    let data = [0x3f, 0x80, 0x00, 0x00, 0x40, 0x09, 0x21, 0xfb, 0x54, 0x44, 0x2d, 0x18];
    let single = decode_records(&data[..4], fmt("KRBI"), 1, 1).unwrap();
    assert!(matches!(single[0][0], Value::Single(0x3f80_0000)));
    let double = decode_records(&data[4..], fmt("KDBI"), 1, 1).unwrap();
    assert!(matches!(double[0][0], Value::Double(0x4009_21fb_5444_2d18)));
}

#[test]
fn ascii_field_kinds() {
    let data = b"     1.5e3**unused**abcdefghij     +    ";
    let rows = decode_records(data, fmt("KRFI"), 4, 0).unwrap();
    assert_eq!(rows.len(), 1);
    match &rows[0][0] {
        Value::Decimal(text) => assert_eq!(text.as_slice(), b"1.5e3"),
        _ => panic!("expected a number"),
    }
    assert!(matches!(rows[0][1], Value::Zero));
    assert!(matches!(rows[0][2], Value::NotANumber));
    assert!(matches!(rows[0][3], Value::Zero));
}

#[test]
fn record_sizes_overflowing_memory_are_too_large() {
    assert_eq!(
        collect(&[], fmt("KDBI"), usize::MAX / 4, 1),
        Err(Error::TooLarge)
    );
    assert_eq!(collect(&[], fmt("KRBI"), 1, usize::MAX), Err(Error::TooLarge));
}
